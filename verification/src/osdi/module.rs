//! Module descriptors: parameters by name, and what a setup reports.
use crate::text::{concat2, concat3, decimal, decimal_text, join, join_texts, lower, same, texts, to_lower};
use vstd::prelude::*;

verus! {

/// Of a parameter's flags, those that tell its type.
pub const PARA_TY_MASK: u32 = 3;

pub const PARA_TY_REAL: u32 = 0;

pub const PARA_TY_INT: u32 = 1;

/// A parameter value lies outside its range.
pub const INIT_ERR_OUT_OF_BOUNDS: u32 = 1;

/// What an evaluation returns beside its values.
pub const EVAL_RET_FLAG_FATAL: u32 = 2;

pub const EVAL_RET_FLAG_FINISH: u32 = 4;

pub const EVAL_RET_FLAG_STOP: u32 = 8;

/// One error of a setup.
#[derive(Clone, Copy, Debug, PartialEq, Eq, Structural)]
pub struct OsdiInitError {
    pub code: u32,
    /// The parameter, where the code says that one is out of bounds.
    pub parameter_id: u32,
}

/// What a setup reports.
#[derive(Debug)]
pub struct OsdiInitInfo {
    pub errors: Vec<OsdiInitError>,
}

/// One parameter of a module: its names, the canonical one first, and its flags.
#[derive(Debug)]
pub struct OsdiParam {
    pub names: Vec<String>,
    pub flags: u32,
}

/// One module of a loaded library.
#[derive(Debug)]
pub struct OsdiModule {
    pub name: String,
    /// Node names, terminals first.
    pub node_names: Vec<String>,
    pub num_terminals: usize,
    /// The parameters by id.
    pub params: Vec<OsdiParam>,
}

/// One of the names, as written, is not empty and agrees with the key but for
/// case.
pub open spec fn goes_by(names: Seq<Seq<char>>, key: Seq<char>) -> bool {
    exists|k: int| 0 <= k < names.len() && (#[trigger] names[k]).len() > 0 && lower(names[k]) == key
}

/// The last of the first `k` parameters that goes by a name in lower case.
pub open spec fn id_of(params: Seq<OsdiParam>, key: Seq<char>, k: int) -> Option<int>
    decreases k,
{
    if k <= 0 {
        None
    } else if goes_by(texts(params[k - 1].names@), key) {
        Some(k - 1)
    } else {
        id_of(params, key, k - 1)
    }
}

impl OsdiModule {
    /// The parameter that a name means, whatever its case.
    pub open spec fn param(self, name: Seq<char>) -> Option<int> {
        id_of(self.params@, lower(name), self.params@.len() as int)
    }

    /// The first name of a parameter that means it, in lower case.
    pub open spec fn proper_name(self, names: Seq<Seq<char>>, id: int, k: int) -> Option<Seq<char>>
        decreases names.len() - k,
    {
        if k < 0 || k >= names.len() {
            None
        } else if names[k].len() > 0 && self.param(names[k]) == Some(id) {
            Some(lower(names[k]))
        } else {
            self.proper_name(names, id, k + 1)
        }
    }

    /// What a parameter is called in messages.
    pub open spec fn called(self, id: u32) -> Seq<char> {
        let number = "#"@ + decimal(id as nat);
        if id < self.params@.len() {
            match self.proper_name(texts(self.params@[id as int].names@), id as int, 0) {
                Some(n) => n,
                None => number,
            }
        } else {
            number
        }
    }

    /// What one setup error says.
    pub open spec fn says(self, e: OsdiInitError) -> Seq<char> {
        if e.code == INIT_ERR_OUT_OF_BOUNDS {
            "parameter '"@ + self.called(e.parameter_id) + "' out of bounds"@
        } else {
            "error code "@ + decimal(e.code as nat)
        }
    }

    pub open spec fn all_says(self, v: Seq<OsdiInitError>) -> Seq<Seq<char>> {
        v.map_values(|e: OsdiInitError| self.says(e))
    }

    /// What precedes every message about an instance.
    pub open spec fn tag(self, inst: Seq<char>) -> Seq<char> {
        inst + " (osdi "@ + self.name@ + "): "@
    }

    /// How many nodes the module has.
    pub fn num_nodes(&self) -> (r: usize)
        ensures
            r == self.node_names@.len(),
    {
        self.node_names.len()
    }

    /// The parameter that a name means (case-insensitive, aliases included).
    pub fn param_id(&self, name: &str) -> (r: Option<usize>)
        ensures
            match (r, self.param(name@)) {
                (Some(i), Some(j)) => i == j && i < self.params@.len(),
                (None, None) => true,
                _ => false,
            },
    {
        let key = to_lower(name);
        let ghost goal = self.param(name@);
        let mut k: usize = self.params.len();
        while k > 0
            invariant
                key@ == lower(name@),
                goal == self.param(name@),
                k <= self.params@.len(),
                id_of(self.params@, key@, k as int) == goal,
            decreases k,
        {
            k = k - 1;
            let names = &self.params[k].names;
            for j in 0..names.len()
                invariant
                    key@ == lower(name@),
                    goal == self.param(name@),
                    k < self.params@.len(),
                    names@ == self.params@[k as int].names@,
                    id_of(self.params@, key@, k + 1) == goal,
                    forall|l: int|
                        0 <= l < j ==> !((#[trigger] texts(names@)[l]).len() > 0 && lower(texts(names@)[l]) == key@),
            {
                let n = &names[j];
                assert(texts(names@)[j as int] == n@);
                let low = to_lower(n);
                if low.as_str().unicode_len() > 0 && same(&low, &key) {
                    assert(goes_by(texts(names@), key@));
                    return Some(k);
                }
            }
            assert(!goes_by(texts(names@), key@));
        }
        None
    }

    /// Whether the module declares a parameter with this (case-insensitive) name.
    pub fn has_param(&self, name: &str) -> (r: bool)
        ensures
            r == self.param(name@) is Some,
    {
        self.param_id(name).is_some()
    }

    fn name_of(&self, id: u32) -> (r: String)
        ensures
            r@ == self.called(id),
    {
        let i: usize = id as usize;
        if i < self.params.len() {
            let names = &self.params[i].names;
            let ghost all = texts(names@);
            let ghost goal = self.proper_name(all, i as int, 0);
            for k in 0..names.len()
                invariant
                    i == id,
                    i < self.params@.len(),
                    names@ == self.params@[i as int].names@,
                    all == texts(names@),
                    goal == self.proper_name(all, i as int, 0),
                    self.proper_name(all, i as int, k as int) == goal,
            {
                assert(all[k as int] == names@[k as int]@);
                let low = to_lower(&names[k]);
                if low.as_str().unicode_len() > 0 {
                    if let Some(j) = self.param_id(&names[k]) {
                        if j == i {
                            return low;
                        }
                    }
                }
            }
        }
        concat2("#", &decimal_text(id as u64))
    }

    fn say(&self, e: OsdiInitError) -> (r: String)
        ensures
            r@ == self.says(e),
    {
        if e.code == INIT_ERR_OUT_OF_BOUNDS {
            let n = self.name_of(e.parameter_id);
            concat3("parameter '", &n, "' out of bounds")
        } else {
            concat2("error code ", &decimal_text(e.code as u64))
        }
    }

    fn tag_text(&self, inst: &str) -> (r: String)
        ensures
            r@ == self.tag(inst@),
    {
        concat2(&concat3(inst, " (osdi ", &self.name), "): ")
    }
}

/// What a setup with errors is answered.
pub open spec fn init_error(inst: Seq<char>, m: OsdiModule, what: Seq<char>, v: Seq<OsdiInitError>) -> Seq<char> {
    m.tag(inst) + what + ": "@ + join(m.all_says(v), "; "@)
}

/// A setup without errors passes; otherwise every error is reported, in order.
pub fn check_init(inst: &str, module: &OsdiModule, what: &str, info: &OsdiInitInfo) -> (r: Result<(), String>)
    ensures
        r is Ok <==> info.errors@.len() == 0,
        r matches Err(m) ==> m@ == init_error(inst@, *module, what@, info.errors@),
{
    if info.errors.len() == 0 {
        return Ok(());
    }
    let ghost all = module.all_says(info.errors@);
    let mut msgs: Vec<String> = Vec::new();
    for k in 0..info.errors.len()
        invariant
            all == module.all_says(info.errors@),
            texts(msgs@) =~= all.take(k as int),
    {
        let ghost before = texts(msgs@);
        msgs.push(module.say(info.errors[k]));
        assert(texts(msgs@) =~= before.push(all[k as int]));
    }
    assert(all.take(all.len() as int) =~= all);
    let list = join_texts(&msgs, "; ");
    let head = concat3(&module.tag_text(inst), what, ": ");
    Err(concat2(&head, &list))
}

/// What becomes of one given parameter.
#[derive(Debug)]
pub enum BindStep {
    /// Write the value to the parameter with this id, as an integer or a real.
    Write { id: usize, integer: bool, value: u64 },
    /// Pass it over with a warning.
    Warn(String),
}

/// The module has no such parameter.
pub open spec fn unknown_param(m: OsdiModule, inst: Seq<char>, name: Seq<char>) -> Seq<char> {
    m.tag(inst) + "unknown parameter '"@ + name + "' ignored"@
}

/// The parameter cannot be written.
pub open spec fn unsettable_param(m: OsdiModule, inst: Seq<char>, name: Seq<char>) -> Seq<char> {
    m.tag(inst) + "parameter '"@ + name + "' not settable"@
}

impl OsdiModule {
    /// Bind a parameter by name (case-insensitive, aliases included).
    pub fn bind_param(&self, inst: &str, name: &str, value: u64) -> (r: BindStep)
        ensures
            match self.param(name@) {
                Some(i) => r matches BindStep::Write { id, integer, value: v } && id == i && integer == (
                self.params@[i].flags & PARA_TY_MASK == PARA_TY_INT) && v == value,
                None => r matches BindStep::Warn(m) && m@ == unknown_param(*self, inst@, name@),
            },
    {
        match self.param_id(name) {
            Some(id) => BindStep::Write {
                id,
                integer: self.params[id].flags & PARA_TY_MASK == PARA_TY_INT,
                value,
            },
            None => {
                let head = concat3(&self.tag_text(inst), "unknown parameter '", name);
                BindStep::Warn(concat2(&head, "' ignored"))
            },
        }
    }

    /// The warning for a parameter that the model does not let be written.
    pub fn not_settable(&self, inst: &str, name: &str) -> (r: String)
        ensures
            r@ == unsettable_param(*self, inst@, name@),
    {
        let head = concat3(&self.tag_text(inst), "parameter '", name);
        concat2(&head, "' not settable")
    }
}

/// The interface that a library must have: version 0.4 or later, and descriptors
/// at least as large as that version's.
pub fn check_library(path: &str, major: u32, minor: u32, stride: u64, least: u64) -> (r: Result<(), String>)
    ensures
        r is Ok <==> (major > 0 || minor >= 4) && stride >= least,
        r matches Err(m) ==> m@ == (if major == 0 && minor < 4 {
            "'"@ + path@ + "' exposes OSDI "@ + decimal(major as nat) + "."@ + decimal(minor as nat)
                + "; SANE requires OSDI 0.4 (compile with OpenVAF-reloaded / openvaf-r)"@
        } else {
            "'"@ + path@ + "': descriptor size "@ + decimal(stride as nat)
                + " smaller than the OSDI 0.4 layout"@
        }),
{
    if major == 0 && minor < 4 {
        let a = concat3("'", path, "' exposes OSDI ");
        let b = concat3(&decimal_text(major as u64), ".", &decimal_text(minor as u64));
        let c = "; SANE requires OSDI 0.4 (compile with OpenVAF-reloaded / openvaf-r)";
        let m = concat3(&a, &b, c);
        assert(m@ =~= "'"@ + path@ + "' exposes OSDI "@ + decimal(major as nat) + "."@ + decimal(minor as nat)
            + "; SANE requires OSDI 0.4 (compile with OpenVAF-reloaded / openvaf-r)"@);
        return Err(m);
    }
    if stride < least {
        let a = concat3("'", path, "': descriptor size ");
        let m = concat3(&a, &decimal_text(stride), " smaller than the OSDI 0.4 layout");
        return Err(m);
    }
    Ok(())
}

/// An evaluation asked the simulation to end.
pub fn stop_requested(ret: u32) -> (r: bool)
    ensures
        r == (ret & 2 != 0 || ret & 4 != 0 || ret & 8 != 0),
{
    ret & EVAL_RET_FLAG_FATAL != 0 || ret & EVAL_RET_FLAG_FINISH != 0 || ret & EVAL_RET_FLAG_STOP != 0
}

} // verus!
