//! What lies outside a deck: files, compiled Verilog-A, compiled libraries. The
//! caller does all input and hands in what it has; where something more is
//! needed, parsing stops with a [`Request`], and starts over once it is there.
use crate::netlist::error::{ErrorView, ParseError};
use crate::netlist::model_cards::values_text;
use crate::table::{entries, table_get, table_insert, table_new, Table};
use crate::text::{lower, same, to_lower};
use vstd::prelude::*;

verus! {

/// The parameter names of a device model, with their defaults, and the aliases
/// for them. An alias target that begins with `$` names a system function.
#[derive(Debug)]
pub struct ParamNames {
    pub params: Vec<(String, Option<u64>)>,
    pub aliases: Vec<(String, String)>,
}

pub struct NamesView {
    pub params: Seq<(Seq<char>, Option<u64>)>,
    pub aliases: Seq<(Seq<char>, Seq<char>)>,
}

impl View for ParamNames {
    type V = NamesView;

    open spec fn view(&self) -> NamesView {
        NamesView {
            params: self.params@.map_values(|p: (String, Option<u64>)| (p.0@, p.1)),
            aliases: self.aliases@.map_values(|p: (String, String)| (p.0@, p.1@)),
        }
    }
}

impl NamesView {
    /// The first parameter from `i` on with the given name up to case.
    pub open spec fn find(self, key: Seq<char>, i: int) -> Option<int>
        decreases self.params.len() - i,
    {
        if i < 0 || i >= self.params.len() {
            None
        } else if lower(self.params[i].0) == lower(key) {
            Some(i)
        } else {
            self.find(key, i + 1)
        }
    }

    /// The first alias from `i` on with the given name up to case.
    pub open spec fn alias_target(self, key: Seq<char>, i: int) -> Option<Seq<char>>
        decreases self.aliases.len() - i,
    {
        if i < 0 || i >= self.aliases.len() {
            None
        } else if lower(self.aliases[i].0) == lower(key) {
            Some(self.aliases[i].1)
        } else {
            self.alias_target(key, i + 1)
        }
    }

    /// The exact name of the parameter that a deck key denotes.
    pub open spec fn canonical(self, key: Seq<char>) -> Option<Seq<char>> {
        match self.find(key, 0) {
            Some(i) => Some(self.params[i].0),
            None => match self.alias_target(key, 0) {
                Some(t) => match self.find(t, 0) {
                    Some(i) => Some(self.params[i].0),
                    None => None,
                },
                None => None,
            },
        }
    }

    /// An alias with the given name from `i` on names a system function.
    pub open spec fn names_system(self, key: Seq<char>, i: int) -> bool
        decreases self.aliases.len() - i,
    {
        if i < 0 || i >= self.aliases.len() {
            false
        } else {
            (lower(self.aliases[i].0) == lower(key) && self.aliases[i].1.len() > 0
                && self.aliases[i].1[0] == '$') || self.names_system(key, i + 1)
        }
    }

    /// An alias for `$mfactor` with the given name from `i` on.
    pub open spec fn names_mfactor(self, key: Seq<char>, i: int) -> bool
        decreases self.aliases.len() - i,
    {
        if i < 0 || i >= self.aliases.len() {
            false
        } else {
            (lower(self.aliases[i].0) == lower(key) && self.aliases[i].1 == "$mfactor"@)
                || self.names_mfactor(key, i + 1)
        }
    }

    /// The default of a parameter, by its exact name, from `i` on.
    pub open spec fn default_of(self, key: Seq<char>, i: int) -> Option<u64>
        decreases self.params.len() - i,
    {
        if i < 0 || i >= self.params.len() {
            None
        } else if self.params[i].0 == key && self.params[i].1 is Some {
            self.params[i].1
        } else {
            self.default_of(key, i + 1)
        }
    }
}

impl ParamNames {
    pub fn find(&self, key: &str) -> (r: Option<usize>)
        ensures
            match r {
                Some(i) => i < self.params@.len() && self@.find(key@, 0) == Some(i as int),
                None => self@.find(key@, 0) is None,
            },
    {
        let k = to_lower(key);
        for i in 0..self.params.len()
            invariant
                k@ == lower(key@),
                self@.find(key@, i as int) == self@.find(key@, 0),
        {
            assert(self@.params[i as int] == (self.params@[i as int].0@, self.params@[i as int].1));
            if to_lower(&self.params[i].0) == k {
                return Some(i);
            }
        }
        None
    }

    pub fn alias_target(&self, key: &str) -> (r: Option<String>)
        ensures
            crate::circuit::text_opt(r) == self@.alias_target(key@, 0),
    {
        let k = to_lower(key);
        for i in 0..self.aliases.len()
            invariant
                k@ == lower(key@),
                self@.alias_target(key@, i as int) == self@.alias_target(key@, 0),
        {
            assert(self@.aliases[i as int] == (self.aliases@[i as int].0@, self.aliases@[i as int].1@));
            if to_lower(&self.aliases[i].0) == k {
                return Some(self.aliases[i].1.clone());
            }
        }
        None
    }

    /// Exact parameter name for a deck key, after the model's own aliases;
    /// `None` when the model has no such parameter.
    pub fn canonical_param(&self, key: &str) -> (r: Option<String>)
        ensures
            crate::circuit::text_opt(r) == self@.canonical(key@),
    {
        if let Some(i) = self.find(key) {
            assert(self@.params[i as int].0 == self.params@[i as int].0@);
            return Some(self.params[i].0.clone());
        }
        match self.alias_target(key) {
            Some(t) => match self.find(&t) {
                Some(i) => {
                    assert(self@.params[i as int].0 == self.params@[i as int].0@);
                    Some(self.params[i].0.clone())
                },
                None => None,
            },
            None => None,
        }
    }

    /// Whether `key` aliases a system function: a valid deck key that binds no
    /// parameter.
    pub fn is_sysfn_alias(&self, key: &str) -> (r: bool)
        ensures
            r == self@.names_system(key@, 0),
    {
        let k = to_lower(key);
        for i in 0..self.aliases.len()
            invariant
                k@ == lower(key@),
                self@.names_system(key@, i as int) == self@.names_system(key@, 0),
        {
            assert(self@.aliases[i as int] == (self.aliases@[i as int].0@, self.aliases@[i as int].1@));
            let t = crate::text::chars_of(&self.aliases[i].1);
            if to_lower(&self.aliases[i].0) == k && t.len() > 0 && t[0] == '$' {
                return true;
            }
        }
        false
    }

    pub fn is_mfactor_alias(&self, key: &str) -> (r: bool)
        ensures
            r == self@.names_mfactor(key@, 0),
    {
        let k = to_lower(key);
        for i in 0..self.aliases.len()
            invariant
                k@ == lower(key@),
                self@.names_mfactor(key@, i as int) == self@.names_mfactor(key@, 0),
        {
            assert(self@.aliases[i as int] == (self.aliases@[i as int].0@, self.aliases@[i as int].1@));
            if to_lower(&self.aliases[i].0) == k && same(&self.aliases[i].1, "$mfactor") {
                return true;
            }
        }
        false
    }

    /// The default of a parameter, by its exact name.
    pub fn param_default(&self, key: &str) -> (r: Option<u64>)
        ensures
            r == self@.default_of(key@, 0),
    {
        for i in 0..self.params.len()
            invariant
                self@.default_of(key@, i as int) == self@.default_of(key@, 0),
        {
            assert(self@.params[i as int] == (self.params@[i as int].0@, self.params@[i as int].1));
            if same(&self.params[i].0, key) && self.params[i].1.is_some() {
                return self.params[i].1;
            }
        }
        None
    }
}

/// A Verilog-A module as parsing reads it: its name, its parameters, its number
/// of ports, and why it cannot be used, if it cannot.
#[derive(Debug)]
pub struct ModuleInfo {
    pub name: String,
    pub names: ParamNames,
    pub ports: usize,
    pub fault: Option<String>,
}

/// The modules behind the built-in device elements.
#[derive(Debug)]
pub struct Stock {
    pub tline: ModuleInfo,
    pub vswitch: ModuleInfo,
    pub diode: ModuleInfo,
    pub mos: ModuleInfo,
    pub bjt: ModuleInfo,
    pub jfet: ModuleInfo,
    pub mesfet: ModuleInfo,
}

/// A module of a compiled library: parameter names in lower case.
#[derive(Debug)]
pub struct OsdiInfo {
    pub name: String,
    pub num_terminals: usize,
    pub params: Vec<String>,
}

/// A file that was asked for: by which file (0 is the deck, `i + 1` the loaded
/// file `i`) and under which name; how its path is displayed; its canonical
/// path; and its text or the reason why it could not be read.
#[derive(Debug)]
pub struct LoadedFile {
    pub from: usize,
    pub name: String,
    pub shown: String,
    pub canon: String,
    pub text: Result<String, String>,
}

/// What came of a piece of Verilog-A.
#[derive(Debug)]
pub enum VaResult {
    /// The file could not be read.
    Unreadable(String),
    /// The modules it defines, in order.
    Modules(Vec<ModuleInfo>),
    /// A phase failed: where and why in the piece (if known), and the message
    /// with its surroundings.
    Failed { phase: String, first: Option<(u32, u32, String)>, rendered: String },
}

/// A piece of Verilog-A that was asked for: an inline block (its text) or a file
/// (its path), and what came of it.
#[derive(Debug)]
pub struct CompiledVa {
    pub file: bool,
    pub source: String,
    pub result: VaResult,
}

/// A compiled library that was asked for by its path, and its modules or the
/// reason why it could not be loaded.
#[derive(Debug)]
pub struct LoadedOsdi {
    pub path: String,
    pub modules: Result<Vec<OsdiInfo>, String>,
}

/// Which model a placed device has.
#[derive(Debug)]
pub enum ModelRef {
    Tline,
    Vswitch,
    Diode,
    Mos,
    Bjt,
    Jfet,
    Mesfet,
    /// A current-controlled switch and the element whose current controls it.
    Switch(String),
    /// A Verilog-A module: the piece that defines it and its place there.
    Va(usize, usize),
    /// A module of a compiled library: the library and its place there.
    Osdi(usize, usize),
}

pub enum ModelRefView {
    Tline,
    Vswitch,
    Diode,
    Mos,
    Bjt,
    Jfet,
    Mesfet,
    Switch(Seq<char>),
    Va(usize, usize),
    Osdi(usize, usize),
}

impl View for ModelRef {
    type V = ModelRefView;

    open spec fn view(&self) -> ModelRefView {
        match *self {
            ModelRef::Tline => ModelRefView::Tline,
            ModelRef::Vswitch => ModelRefView::Vswitch,
            ModelRef::Diode => ModelRefView::Diode,
            ModelRef::Mos => ModelRefView::Mos,
            ModelRef::Bjt => ModelRefView::Bjt,
            ModelRef::Jfet => ModelRefView::Jfet,
            ModelRef::Mesfet => ModelRefView::Mesfet,
            ModelRef::Switch(s) => ModelRefView::Switch(s@),
            ModelRef::Va(k, j) => ModelRefView::Va(k, j),
            ModelRef::Osdi(k, j) => ModelRefView::Osdi(k, j),
        }
    }
}

/// A placed device: its instance name, its model, the nodes wired to its
/// terminals (0 = ground), its parallel multiplicity, and the parameters that
/// the deck states for it, by the model's own names (a later one replaces an
/// earlier one). A compiled model also gets its temperature in Kelvin.
#[derive(Debug)]
pub struct Placement {
    pub name: String,
    pub model: ModelRef,
    pub terminals: Vec<usize>,
    pub mfactor: u64,
    pub params: Vec<(String, u64)>,
    pub temperature: Option<u64>,
}

pub struct PlacementView {
    pub name: Seq<char>,
    pub model: ModelRefView,
    pub terminals: Seq<usize>,
    pub mfactor: u64,
    pub params: Seq<(Seq<char>, u64)>,
    pub temperature: Option<u64>,
}

impl View for Placement {
    type V = PlacementView;

    open spec fn view(&self) -> PlacementView {
        PlacementView {
            name: self.name@,
            model: self.model@,
            terminals: self.terminals@,
            mfactor: self.mfactor,
            params: values_text(self.params@),
            temperature: self.temperature,
        }
    }
}

/// A table from names to places, each a pair of indices.
#[derive(Debug)]
pub struct RefTable {
    index: Table,
    refs: Vec<(usize, usize)>,
}

impl View for RefTable {
    type V = Map<Seq<char>, (usize, usize)>;

    closed spec fn view(&self) -> Map<Seq<char>, (usize, usize)> {
        Map::new(
            |k: Seq<char>| entries(self.index).contains_key(k),
            |k: Seq<char>| self.refs@[entries(self.index)[k] as int],
        )
    }
}

impl RefTable {
    pub closed spec fn wf(&self) -> bool {
        forall|k: Seq<char>| #[trigger]
            entries(self.index).contains_key(k) ==> entries(self.index)[k] < self.refs@.len()
    }

    pub fn new() -> (r: RefTable)
        ensures
            r.wf(),
            r@ == Map::<Seq<char>, (usize, usize)>::empty(),
    {
        let r = RefTable { index: table_new(), refs: Vec::new() };
        assert(r@ =~= Map::<Seq<char>, (usize, usize)>::empty());
        r
    }

    pub fn insert(&mut self, name: String, place: (usize, usize))
        requires
            old(self).wf(),
        ensures
            final(self).wf(),
            final(self)@ == old(self)@.insert(name@, place),
    {
        let ghost before = *self;
        let n: usize = self.refs.len();
        self.refs.push(place);
        table_insert(&mut self.index, name, n as u64);
        proof {
            assert forall|k: Seq<char>| #[trigger] entries(self.index).contains_key(k) implies entries(self.index)[k]
                < self.refs@.len() by {
                if k != name@ {
                    assert(entries(before.index).contains_key(k));
                }
            }
            assert forall|k: Seq<char>| #[trigger] self@.contains_key(k) implies self@[k] == before@.insert(
                name@,
                place,
            )[k] by {
                if k != name@ {
                    assert(entries(before.index).contains_key(k));
                }
            }
            assert(self@ =~= before@.insert(name@, place));
        }
    }

    pub fn get(&self, name: &str) -> (r: Option<(usize, usize)>)
        requires
            self.wf(),
        ensures
            r == self@.get(name@),
    {
        match table_get(&self.index, name) {
            Some(i) => {
                let n: usize = self.refs.len();
                assert(entries(self.index).contains_key(name@));
                assert(i < n);
                assert(self@.contains_key(name@));
                Some(self.refs[i as usize])
            },
            None => {
                assert(!self@.contains_key(name@));
                None
            },
        }
    }
}

/// Everything that has been handed in so far. `setups` holds for each placement
/// of a compiled model, in order, why its set-up failed, if it did.
#[derive(Debug)]
pub struct World {
    pub stock: Stock,
    pub files: Vec<LoadedFile>,
    pub va: Vec<CompiledVa>,
    pub osdi: Vec<LoadedOsdi>,
    pub setups: Vec<Option<String>>,
}

/// What parsing needs next.
#[derive(Debug)]
pub enum Request {
    /// A file, by the file that refers to it and the name it uses.
    File(usize, String),
    /// An inline block of Verilog-A.
    VaBlock(String),
    /// A Verilog-A file.
    VaFile(String),
    /// A compiled library.
    Osdi(String),
    /// The set-up of a compiled model with its bound parameters.
    Setup(Placement),
}

pub enum RequestView {
    File(usize, Seq<char>),
    VaBlock(Seq<char>),
    VaFile(Seq<char>),
    Osdi(Seq<char>),
    Setup(PlacementView),
}

impl View for Request {
    type V = RequestView;

    open spec fn view(&self) -> RequestView {
        match *self {
            Request::File(from, n) => RequestView::File(from, n@),
            Request::VaBlock(s) => RequestView::VaBlock(s@),
            Request::VaFile(s) => RequestView::VaFile(s@),
            Request::Osdi(s) => RequestView::Osdi(s@),
            Request::Setup(p) => RequestView::Setup(p@),
        }
    }
}

/// Why parsing stopped short.
#[derive(Debug)]
pub enum Stop {
    /// The deck is refused.
    Failed(ParseError),
    /// Something more is needed.
    Need(Request),
}

pub enum StopView {
    Failed(ErrorView),
    Need(RequestView),
}

impl View for Stop {
    type V = StopView;

    open spec fn view(&self) -> StopView {
        match *self {
            Stop::Failed(e) => StopView::Failed(e@),
            Stop::Need(r) => StopView::Need(r@),
        }
    }
}

/// An error of a whole line.
pub open spec fn failed(line: int, msg: Seq<char>) -> StopView {
    StopView::Failed(ErrorView { line, col: 0, msg })
}

/// An error at a column.
pub open spec fn failed_at(line: int, col: int, msg: Seq<char>) -> StopView {
    StopView::Failed(ErrorView { line, col, msg })
}

pub(crate) fn fail(line: usize, msg: &str) -> (r: Stop)
    ensures
        r@ == failed(line as int, msg@),
{
    Stop::Failed(crate::netlist::error::err(line, msg))
}

pub(crate) fn fail_at(line: usize, col: usize, msg: &str) -> (r: Stop)
    ensures
        r@ == failed_at(line as int, col as int, msg@),
{
    Stop::Failed(crate::netlist::error::err_at(line, col, msg))
}

} // verus!
