//! Placement of the elements that are devices or stand for several elements:
//! transmission lines, switches, diodes, transistors, Verilog-A and compiled
//! instances.
use crate::circuit::{plain, text_opt, Kind};
use crate::netlist::devices::{
    apply_defaults, bind_all_params, bind_device_params, card_opt, defaulted, instance_mfactor, keyed,
    keyed_value, multiplicity, or_value, place_osdi_device, place_va_device, value_or, Bound, OsdiJob,
    OsdiSite, Placed, PlacedView, Placing, VaJob, VaSite,
};
use crate::netlist::elements::{
    find_bare, find_name, find_osdi, first_bare, first_name, four, leads_osdi, make_switch_names, node_run,
    osdi_at, place_nodes, switch_names, three, times, two, Elem, ElemView, Placer, Tables, FIFTY,
    LAST_SQUARE_LAW, MAX_SECTIONS, NANO, PICO,
};
use crate::netlist::model_cards::{
    find_param, find_plain, first_plain, param_value, values_text, CardView,
};
use crate::netlist::subckt::{find_assignment, first_assignment};
use crate::netlist::va::{find_module, module_at};
use crate::netlist::world::{
    ModelRef, ModelRefView, ModuleInfo, NamesView, ParamNames, Placement, PlacementView, Stop,
};
use crate::numerics::{
    apply2, compares, count, nearest, shown, truncated, Answers, Ask, Host, Op2, Rel, Reply, Style,
    MINUS_ONE, ONE, ZERO,
};
use crate::table::{entries, table_get, table_insert, Table};
use crate::text::{concat3, copy_range, decimal, decimal_text, lower, same, texts, to_lower};
use vstd::prelude::*;

verus! {

/// Minus one for the p-channel type, else one.
pub open spec fn sign_of(card: Option<CardView>, p_type: Seq<char>) -> u64 {
    match card {
        Some(c) => if lower(c.mtype) == p_type {
            MINUS_ONE
        } else {
            ONE
        },
        None => ONE,
    }
}

pub open spec fn or_text(t: Option<Seq<char>>, d: Seq<char>) -> Seq<char> {
    match t {
        Some(x) => x,
        None => d,
    }
}

fn text_or(t: &Option<String>, d: &str) -> (r: String)
    ensures
        r@ == or_text(text_opt(*t), d@),
{
    match t {
        Some(x) => x.clone(),
        None => d.to_owned(),
    }
}

/// One value multiplied, bound to its product; an unbound one starts from the
/// module's default.
pub open spec fn multiplied(
    h: Answers,
    n: NamesView,
    name: Seq<char>,
    key: Seq<char>,
    f: u64,
    values: Map<Seq<char>, u64>,
) -> Map<Seq<char>, u64> {
    let full = name + "."@ + key;
    let base = if values.contains_key(full) {
        Some(values[full])
    } else {
        n.default_of(key, 0)
    };
    match base {
        Some(v) => values.insert(full, apply2(h, Op2::Mul, v, f)),
        None => values,
    }
}

/// The values of a bipolar transistor with an area: currents times the area,
/// resistances divided by it.
pub open spec fn with_area(h: Answers, n: NamesView, name: Seq<char>, area: u64, v0: Map<Seq<char>, u64>) -> Map<
    Seq<char>,
    u64,
> {
    let v1 = multiplied(h, n, name, "Is"@, area, v0);
    let v2 = multiplied(h, n, name, "IKF"@, area, v1);
    let v3 = multiplied(h, n, name, "IKR"@, area, v2);
    let v4 = multiplied(h, n, name, "ISE"@, area, v3);
    let v5 = multiplied(h, n, name, "ISC"@, area, v4);
    let g = apply2(h, Op2::Div, ONE, area);
    let v6 = multiplied(h, n, name, "Rb"@, g, v5);
    let v7 = multiplied(h, n, name, "Rc"@, g, v6);
    multiplied(h, n, name, "Re"@, g, v7)
}

fn multiply<F: Fn(Ask) -> Reply>(name: &str, key: &str, f: u64, names: &ParamNames, values: &mut Table, host: &Host<F>)
    ensures
        entries(*final(values)) == multiplied(host.answers(), names@, name@, key@, f, entries(*old(values))),
{
    let full = concat3(name, ".", key);
    let base: Option<u64> = match table_get(values, &full) {
        Some(v) => Some(v),
        None => names.param_default(key),
    };
    if let Some(v) = base {
        let x: u64 = host.apply2(Op2::Mul, v, f);
        table_insert(values, full, x);
    }
}

/// What a lumped line is made of: the values of one section and the nodes
/// between which it runs.
pub struct Ladder {
    pub name: Seq<char>,
    pub sections: int,
    pub out: usize,
    pub reference: usize,
    pub rs: u64,
    pub ls: u64,
    pub gs: u64,
    pub cs: u64,
}

impl Ladder {
    pub open spec fn named(self, letter: Seq<char>, k: int) -> Seq<char> {
        self.name + letter + decimal(k as nat)
    }

    /// The series branch of section `k`: resistor and inductor as far as there
    /// are any, with a node between them where there are both; a tiny resistor
    /// where there is neither.
    pub open spec fn series(self, h: Answers, s: PlacedView, k: int, prev: usize, node: usize) -> PlacedView {
        let rn = self.named(".R"@, k);
        let ln = self.named(".L"@, k);
        let r = compares(h, Rel::Ne, self.rs, ZERO);
        let l = compares(h, Rel::Ne, self.ls, ZERO);
        if r && l {
            let (mid, s1) = s.node(self.named(".r"@, k));
            s1.with_element(plain(Kind::Resistor, rn, prev, mid)).valued(rn, self.rs).with_element(
                plain(Kind::Inductor, ln, mid, node),
            ).valued(ln, self.ls)
        } else if r {
            s.with_element(plain(Kind::Resistor, rn, prev, node)).valued(rn, self.rs)
        } else if l {
            s.with_element(plain(Kind::Inductor, ln, prev, node)).valued(ln, self.ls)
        } else {
            s.with_element(plain(Kind::Resistor, rn, prev, node)).valued(rn, NANO)
        }
    }

    /// The shunt branch of section `k`.
    pub open spec fn shunt(self, h: Answers, s: PlacedView, k: int, node: usize) -> PlacedView {
        let cn = self.named(".C"@, k);
        let gn = self.named(".G"@, k);
        let s1 = if compares(h, Rel::Ne, self.cs, ZERO) {
            s.with_element(plain(Kind::Capacitor, cn, node, self.reference)).valued(cn, self.cs)
        } else {
            s
        };
        if compares(h, Rel::Ne, self.gs, ZERO) {
            s1.with_element(plain(Kind::Resistor, gn, node, self.reference)).valued(
                gn,
                apply2(h, Op2::Div, ONE, self.gs),
            )
        } else {
            s1
        }
    }

    /// The sections from `k` on; section `k` begins at node `prev`.
    pub open spec fn from(self, h: Answers, s: PlacedView, k: int, prev: usize) -> PlacedView
        decreases self.sections - k,
    {
        if k < 0 || k >= self.sections {
            s
        } else {
            let (node, s1) = if k + 1 == self.sections {
                (self.out, s)
            } else {
                s.node(self.named(".x"@, k))
            };
            self.from(h, self.shunt(h, self.series(h, s1, k, prev, node), k, node), k + 1, node)
        }
    }
}

/// The number of sections: the stated one within bounds, or sixteen.
pub open spec fn sections_of(h: Answers, n: Option<u64>) -> int {
    match n {
        Some(v) => {
            let k = truncated(h, v) as int;
            if k < 1 {
                1
            } else if k > MAX_SECTIONS {
                MAX_SECTIONS as int
            } else {
                k
            }
        },
        None => 16,
    }
}

impl Tables {
    /// `T` without sections: the exact delay line.
    pub open spec fn ideal_line(self, s: PlacedView, el: ElemView) -> Placing {
        if el.tok.len() < 5 {
            Err(el.short(5))
        } else {
            let (a, s1) = s.node(el.tok[1]);
            let (b, s2) = s1.node(el.tok[2]);
            let (p, s3) = s2.node(el.tok[3]);
            let (q, s4) = s3.node(el.tok[4]);
            match keyed(self.h, self.env, el.tok, 5, "td"@) {
                None => Err(el.refused("transmission line needs TD=<delay>"@)),
                Some(td) => if !compares(self.h, Rel::Gt, td, ZERO) {
                    Err(el.refused("transmission line TD must be positive"@))
                } else {
                    (VaJob {
                        name: el.name,
                        modelname: el.base,
                        names: self.world.stock.tline.names@,
                        fault: self.world.stock.tline.fault,
                        model: ModelRefView::Tline,
                        terminals: seq![a, b, p, q],
                        toks: el.tok.skip(5),
                        card: None,
                        polarity: None,
                        scale: None,
                        fingers: false,
                        line: el.line,
                        col: el.col,
                    }).placed(self.h, self.env, s4)
                },
            }
        }
    }

    /// `S`.
    pub open spec fn vswitch(self, s: PlacedView, el: ElemView) -> Placing {
        if el.tok.len() < 5 {
            Err(el.short(5))
        } else {
            let (a, s1) = s.node(el.tok[1]);
            let (b, s2) = s1.node(el.tok[2]);
            let (p, s3) = s2.node(el.tok[3]);
            let (q, s4) = s3.node(el.tok[4]);
            let m = first_plain(el.tok, 5);
            (VaJob {
                name: el.name,
                modelname: or_text(m, el.base),
                names: self.world.stock.vswitch.names@,
                fault: self.world.stock.vswitch.fault,
                model: ModelRefView::Vswitch,
                terminals: seq![a, b, p, q],
                toks: el.tok.skip(5),
                card: self.select(m, None, None),
                polarity: None,
                scale: None,
                fingers: false,
                line: el.line,
                col: el.col,
            }).placed(self.h, self.env, s4)
        }
    }

    /// `W`: the one device with a model of its own; its defaults are bound with
    /// it.
    pub open spec fn cswitch(self, s: PlacedView, el: ElemView) -> Placing {
        if el.tok.len() < 4 {
            Err(el.short(4))
        } else {
            let (a, s1) = s.node(el.tok[1]);
            let (b, s2) = s1.node(el.tok[2]);
            let card = self.select(first_plain(el.tok, 4), None, None);
            let bound = bind_all_params(
                self.h,
                self.env,
                switch_names(),
                el.name,
                el.tok.skip(4),
                card,
                Bound { values: s2.values, report: s2.report },
            );
            let d = PlacementView {
                name: el.name,
                model: ModelRefView::Switch(el.tok[3]),
                terminals: seq![a, b],
                mfactor: multiplicity(self.h, self.env, el.tok, false),
                params: seq![],
                temperature: None,
            };
            Ok(
                PlacedView {
                    values: defaulted(switch_names(), el.name, 0, bound.values),
                    report: bound.report,
                    ..s2
                }.with_device(d),
            )
        }
    }

    /// `D`.
    pub open spec fn diode(self, s: PlacedView, el: ElemView) -> Placing {
        if el.tok.len() < 3 {
            Err(el.short(3))
        } else {
            let (a, s1) = s.node(el.tok[1]);
            let (k, s2) = s1.node(el.tok[2]);
            let m = first_plain(el.tok, 3);
            (VaJob {
                name: el.name,
                modelname: or_text(m, el.base),
                names: self.world.stock.diode.names@,
                fault: self.world.stock.diode.fault,
                model: ModelRefView::Diode,
                terminals: seq![a, k],
                toks: el.tok.skip(3),
                card: self.select(m, None, None),
                polarity: None,
                scale: None,
                fingers: false,
                line: el.line,
                col: el.col,
            }).placed(self.h, self.env, s2)
        }
    }

    /// The Verilog-A module behind a compact-model level: the card's type names
    /// it, or an alias binds the level.
    pub open spec fn compact_module(self, card: Option<CardView>, level: u64) -> Option<Seq<char>> {
        match card {
            Some(c) => if self.va.contains_key(lower(c.mtype)) {
                Some(lower(c.mtype))
            } else {
                self.aliases.get(nearest(self.h, level))
            },
            None => self.aliases.get(nearest(self.h, level)),
        }
    }

    /// `M`.
    pub open spec fn mosfet(self, s: PlacedView, el: ElemView) -> Placing {
        if el.tok.len() < 5 {
            Err(el.short(5))
        } else {
            let (d, s1) = s.node(el.tok[1]);
            let (g, s2) = s1.node(el.tok[2]);
            let (src, s3) = s2.node(el.tok[3]);
            let (body, s4) = s3.node(el.tok[4]);
            let m = first_plain(el.tok, 5);
            let scale = self.options.spec_scale();
            let l = times(self.h, keyed(self.h, self.env, el.tok, 5, "L"@), scale);
            let w = times(self.h, keyed(self.h, self.env, el.tok, 5, "W"@), scale);
            let card = self.select(m, l, w);
            let level = match card {
                Some(c) => or_value(param_value(c.params, "level"@, 0), ONE),
                None => ONE,
            };
            let job = VaJob {
                name: el.name,
                modelname: or_text(m, el.base),
                names: self.world.stock.mos.names@,
                fault: self.world.stock.mos.fault,
                model: ModelRefView::Mos,
                terminals: seq![d, g, src, body],
                toks: el.tok.skip(5),
                card,
                polarity: Some(sign_of(card, "pmos"@)),
                scale: Some(scale),
                fingers: true,
                line: el.line,
                col: el.col,
            };
            if !compares(self.h, Rel::Gt, level, LAST_SQUARE_LAW) {
                job.placed(self.h, self.env, s4)
            } else {
                let module = self.compact_module(card, level);
                if module is Some && self.va.contains_key(module->0) {
                    let place = self.va[module->0];
                    let em = module_at(self.world.va@, place);
                    if em.ports != 4 {
                        Err(
                            el.refused(
                                "compact MOSFET '"@ + el.name + "' routed to Verilog-A module '"@ + em.name@
                                    + "' with "@ + decimal(em.ports as nat)
                                    + " self.ports, but `M` provides 4 terminals (d g s b)"@,
                            ),
                        )
                    } else {
                        (VaJob {
                            names: em.names@,
                            fault: em.fault,
                            model: ModelRefView::Va(place.0, place.1),
                            fingers: false,
                            ..job
                        }).placed(self.h, self.env, s4)
                    }
                } else {
                    let mname = or_text(m, "?"@);
                    Err(
                        el.refused(
                            "MOSFET '"@ + el.name + "' model '"@ + mname + "' is a compact model (level "@
                                + shown(self.h, Style::Plain, level)
                                + "); SANE has no native compact MOSFET (only the square-law levels 1-3). Provide it as Verilog-A: load the module with `.veriloga \"<file>.va\"` and bind this level with `.model_alias level="@
                                + decimal(nearest(self.h, level) as nat) + " "@ + mname
                                + "`, or use the `N` element with a `.model "@ + mname + " <va-module> ...` card."@,
                        ),
                    )
                }
            }
        }
    }

    /// `Q`.
    pub open spec fn bjt(self, s: PlacedView, el: ElemView) -> Placing {
        if el.tok.len() < 4 {
            Err(el.short(4))
        } else {
            let (c, s1) = s.node(el.tok[1]);
            let (b, s2) = s1.node(el.tok[2]);
            let (e, s3) = s2.node(el.tok[3]);
            let m = first_name(self.h, self.env, el.tok, 4);
            let card = self.select(m, None, None);
            let names = self.world.stock.bjt.names@;
            let placed = (VaJob {
                name: el.name,
                modelname: or_text(m, el.base),
                names,
                fault: self.world.stock.bjt.fault,
                model: ModelRefView::Bjt,
                terminals: seq![c, b, e],
                toks: el.tok.skip(4),
                card,
                polarity: Some(sign_of(card, "pnp"@)),
                scale: None,
                fingers: false,
                line: el.line,
                col: el.col,
            }).placed(self.h, self.env, s3);
            match placed {
                Err(x) => Err(x),
                Ok(s4) => match first_bare(self.h, self.env, el.tok, 4) {
                    Some(area) => Ok(
                        PlacedView { values: with_area(self.h, names, el.name, area, s4.values), ..s4 },
                    ),
                    None => Ok(s4),
                },
            }
        }
    }

    /// `J`, `Z`: the field-effect transistors of three terminals.
    pub open spec fn junction_fet(
        self,
        s: PlacedView,
        el: ElemView,
        module: ModuleInfo,
        model: ModelRefView,
        p_type: Seq<char>,
    ) -> Placing {
        if el.tok.len() < 4 {
            Err(el.short(4))
        } else {
            let (d, s1) = s.node(el.tok[1]);
            let (g, s2) = s1.node(el.tok[2]);
            let (src, s3) = s2.node(el.tok[3]);
            let m = first_plain(el.tok, 4);
            let card = self.select(m, None, None);
            (VaJob {
                name: el.name,
                modelname: or_text(m, el.base),
                names: module.names@,
                fault: module.fault,
                model,
                terminals: seq![d, g, src],
                toks: el.tok.skip(4),
                card,
                polarity: Some(sign_of(card, p_type)),
                scale: None,
                fingers: false,
                line: el.line,
                col: el.col,
            }).placed(self.h, self.env, s3)
        }
    }

    /// The compiled module that a model name or its card's type names.
    pub open spec fn compiled(self, s: PlacedView, key: Seq<char>, card: Option<CardView>) -> Option<(usize, usize)> {
        if s.osdi.contains_key(key) {
            Some(s.osdi[key])
        } else {
            match card {
                Some(c) => s.osdi.get(lower(c.mtype)),
                None => None,
            }
        }
    }

    /// `N`: nodes, then a module or a model card whose type is one.
    pub open spec fn module_instance(self, s: PlacedView, el: ElemView) -> Placing {
        let end = first_assignment(el.tok, 1);
        if end < 3 {
            Err(el.refused("veriloga instance needs node(s) and a model name"@))
        } else {
            let modelname = el.tok[end - 1];
            let given = end - 2;
            let key = lower(modelname);
            let card = self.select(Some(key), None, None);
            match self.compiled(s, key, card) {
                Some(place) => {
                    let m = osdi_at(self.world.osdi@, place);
                    if given != m.num_terminals {
                        Err(
                            el.refused(
                                "osdi model '"@ + modelname + "' has "@ + decimal(m.num_terminals as nat)
                                    + " terminals, "@ + decimal(given as nat) + " connections given"@,
                            ),
                        )
                    } else {
                        let (terminals, s1) = node_run(s, el.tok, 1, end - 1);
                        (OsdiJob {
                            name: el.name,
                            module: m,
                            place,
                            terminals,
                            toks: el.tok.skip(end - 1),
                            card,
                            temp_c: self.options.spec_temp_c(),
                            line: el.line,
                            col: el.col,
                        }).placed(self.h, self.env, self.world.setups@, s1)
                    }
                },
                None => {
                    let place = if self.va.contains_key(key) {
                        Ok(self.va[key])
                    } else {
                        match card {
                            Some(c) => if self.va.contains_key(lower(c.mtype)) {
                                Ok(self.va[lower(c.mtype)])
                            } else {
                                Err(
                                    "model '"@ + modelname + "' has type '"@ + c.mtype
                                        + "', which is not a Verilog-A module"@,
                                )
                            },
                            None => Err("unknown veriloga model '"@ + modelname + "'"@),
                        }
                    };
                    match place {
                        Err(msg) => Err(el.refused(msg)),
                        Ok(p) => {
                            let em = module_at(self.world.va@, p);
                            if given != em.ports {
                                Err(
                                    el.refused(
                                        "veriloga model '"@ + modelname + "' has "@ + decimal(em.ports as nat)
                                            + " self.ports, "@ + decimal(given as nat) + " connections given"@,
                                    ),
                                )
                            } else {
                                let (terminals, s1) = node_run(s, el.tok, 1, end - 1);
                                (VaJob {
                                    name: el.name,
                                    modelname,
                                    names: em.names@,
                                    fault: em.fault,
                                    model: ModelRefView::Va(p.0, p.1),
                                    terminals,
                                    toks: el.tok.skip(end - 1),
                                    card,
                                    polarity: None,
                                    scale: None,
                                    fingers: false,
                                    line: el.line,
                                    col: el.col,
                                }).placed(self.h, self.env, s1)
                            }
                        },
                    }
                },
            }
        }
    }

    /// The totals of a lumped line: series resistance and inductance, shunt
    /// conductance and capacitance.
    pub open spec fn line_totals(self, el: ElemView) -> (u64, u64, u64, u64) {
        let h = self.h;
        if el.kind == 'T' {
            let z0 = or_value(keyed(h, self.env, el.tok, 5, "Z0"@), FIFTY);
            let td = or_value(keyed(h, self.env, el.tok, 5, "TD"@), NANO);
            (ZERO, apply2(h, Op2::Mul, z0, td), ZERO, apply2(h, Op2::Div, td, z0))
        } else if el.kind == 'U' {
            (
                or_value(keyed(h, self.env, el.tok, 5, "R"@), ONE),
                ZERO,
                ZERO,
                or_value(keyed(h, self.env, el.tok, 5, "C"@), PICO),
            )
        } else {
            (
                or_value(keyed(h, self.env, el.tok, 5, "R"@), ZERO),
                or_value(keyed(h, self.env, el.tok, 5, "L"@), ZERO),
                or_value(keyed(h, self.env, el.tok, 5, "G"@), ZERO),
                or_value(keyed(h, self.env, el.tok, 5, "C"@), ZERO),
            )
        }
    }

    /// `T` with sections, `O`, `U`: a ladder of lumped sections.
    pub open spec fn lossy_line(self, s: PlacedView, el: ElemView) -> Placing {
        if el.tok.len() < 5 {
            Err(el.short(5))
        } else {
            let (inp, s1) = s.node(el.tok[1]);
            let (out, s2) = s1.node(el.tok[3]);
            let (reference, s3) = s2.node(el.tok[2]);
            let (_, s4) = s3.node(el.tok[4]);
            let h = self.h;
            let sections = sections_of(h, keyed(h, self.env, el.tok, 5, "N"@));
            let n = count(h, sections as i64);
            let (r, l, g, c) = self.line_totals(el);
            let ladder = Ladder {
                name: el.name,
                sections,
                out,
                reference,
                rs: apply2(h, Op2::Div, r, n),
                ls: apply2(h, Op2::Div, l, n),
                gs: apply2(h, Op2::Div, g, n),
                cs: apply2(h, Op2::Div, c, n),
            };
            Ok(ladder.from(h, s4, 0, inp))
        }
    }
}

// ---------------------------------------------------------------------------
// The methods.
// ---------------------------------------------------------------------------
fn polarity_of(card: Option<&crate::netlist::model_cards::ModelCard>, p_type: &str) -> (r: u64)
    ensures
        r == sign_of(card_opt(card), p_type@),
{
    match card {
        Some(c) => if same(&to_lower(&c.mtype), p_type) {
            MINUS_ONE
        } else {
            ONE
        },
        None => ONE,
    }
}

impl<'a, F: Fn(Ask) -> Reply> Placer<'a, F> {
    /// Ideal (lossless) transmission line: `T<name> p1 n1 p2 n2 Z0=<ohms>
    /// TD=<seconds>`.
    pub fn place_ideal_line(&self, st: &mut Placed, el: &Elem) -> (r: Result<(), Stop>)
        requires
            self.ready(*old(st)),
        ensures
            self.done(r, *final(st), self.tables().ideal_line(old(st)@, el@)),
    {
        match el.need(5) {
            Err(e) => {
                return Err(Stop::Failed(e));
            },
            Ok(()) => {},
        }
        let tok = el.tok;
        let ghost t = el@.tok;
        assert(t[1] == tok@[1]@ && t[2] == tok@[2]@ && t[3] == tok@[3]@ && t[4] == tok@[4]@);
        let a: usize = st.node(&tok[1]);
        let b: usize = st.node(&tok[2]);
        let p: usize = st.node(&tok[3]);
        let q: usize = st.node(&tok[4]);
        let td: u64 = match keyed_value(tok, 5, "td", self.params, self.host) {
            None => {
                return Err(el.refuse("transmission line needs TD=<delay>"));
            },
            Some(td) => td,
        };
        if !self.host.compares(Rel::Gt, td, ZERO) {
            return Err(el.refuse("transmission line TD must be positive"));
        }
        let site = VaSite {
            name: el.name,
            modelname: el.base,
            toks: tok,
            from: 5,
            card: None,
            polarity: None,
            scale: None,
            fingers: false,
            line: el.line_no,
            col: el.line_col,
        };
        place_va_device(st, &site, &self.world.stock.tline, ModelRef::Tline, four(a, b, p, q), self.params, self.host)
    }

    /// Voltage-controlled switch: `S name n+ n- nc+ nc- [model]`.
    pub fn place_vswitch(&self, st: &mut Placed, el: &Elem) -> (r: Result<(), Stop>)
        requires
            self.wf(),
            self.ready(*old(st)),
        ensures
            self.done(r, *final(st), self.tables().vswitch(old(st)@, el@)),
    {
        match el.need(5) {
            Err(e) => {
                return Err(Stop::Failed(e));
            },
            Ok(()) => {},
        }
        let tok = el.tok;
        let ghost t = el@.tok;
        assert(t[1] == tok@[1]@ && t[2] == tok@[2]@ && t[3] == tok@[3]@ && t[4] == tok@[4]@);
        let a: usize = st.node(&tok[1]);
        let b: usize = st.node(&tok[2]);
        let p: usize = st.node(&tok[3]);
        let q: usize = st.node(&tok[4]);
        let m = find_plain(tok, 5);
        let modelname = text_or(&m, el.base);
        let site = VaSite {
            name: el.name,
            modelname: &modelname,
            toks: tok,
            from: 5,
            card: self.select(&m, None, None),
            polarity: None,
            scale: None,
            fingers: false,
            line: el.line_no,
            col: el.line_col,
        };
        place_va_device(
            st,
            &site,
            &self.world.stock.vswitch,
            ModelRef::Vswitch,
            four(a, b, p, q),
            self.params,
            self.host,
        )
    }

    /// Current-controlled switch: `W name n+ n- Vctrl [model]`.
    pub fn place_cswitch(&self, st: &mut Placed, el: &Elem) -> (r: Result<(), Stop>)
        requires
            self.wf(),
            self.ready(*old(st)),
        ensures
            self.done(r, *final(st), self.tables().cswitch(old(st)@, el@)),
    {
        match el.need(4) {
            Err(e) => {
                return Err(Stop::Failed(e));
            },
            Ok(()) => {},
        }
        let tok = el.tok;
        let ghost t = el@.tok;
        assert(t[1] == tok@[1]@ && t[2] == tok@[2]@ && t[3] == tok@[3]@);
        let a: usize = st.node(&tok[1]);
        let b: usize = st.node(&tok[2]);
        let m = find_plain(tok, 4);
        let card = self.select(&m, None, None);
        let mfactor: u64 = instance_mfactor(tok, self.params, false, self.host);
        let names = make_switch_names();
        let extras = copy_range(tok, 4, tok.len());
        assert(texts(extras@) =~= t.skip(4));
        bind_device_params(el.name, &extras, card, self.params, &mut st.values, &names, &mut st.report, self.host);
        apply_defaults(el.name, &names, &mut st.values);
        let params: Vec<(String, u64)> = Vec::new();
        assert(values_text(params@) =~= seq![]);
        st.add_device(
            Placement {
                name: el.name.to_owned(),
                model: ModelRef::Switch(tok[3].clone()),
                terminals: two(a, b),
                mfactor,
                params,
                temperature: None,
            },
        );
        Ok(())
    }

    /// Diode: `D name anode cathode [model]`.
    pub fn place_diode(&self, st: &mut Placed, el: &Elem) -> (r: Result<(), Stop>)
        requires
            self.wf(),
            self.ready(*old(st)),
        ensures
            self.done(r, *final(st), self.tables().diode(old(st)@, el@)),
    {
        match el.need(3) {
            Err(e) => {
                return Err(Stop::Failed(e));
            },
            Ok(()) => {},
        }
        let tok = el.tok;
        let ghost t = el@.tok;
        assert(t[1] == tok@[1]@ && t[2] == tok@[2]@);
        let a: usize = st.node(&tok[1]);
        let k: usize = st.node(&tok[2]);
        let m = find_plain(tok, 3);
        let modelname = text_or(&m, el.base);
        let site = VaSite {
            name: el.name,
            modelname: &modelname,
            toks: tok,
            from: 3,
            card: self.select(&m, None, None),
            polarity: None,
            scale: None,
            fingers: false,
            line: el.line_no,
            col: el.line_col,
        };
        place_va_device(st, &site, &self.world.stock.diode, ModelRef::Diode, two(a, k), self.params, self.host)
    }

    fn scaled_key(&self, tok: &Vec<String>, key: &str) -> (r: Option<u64>)
        ensures
            r == times(
                self.tables().h,
                keyed(self.tables().h, self.tables().env, texts(tok@), 5, key@),
                self.options.spec_scale(),
            ),
    {
        match keyed_value(tok, 5, key, self.params, self.host) {
            Some(x) => Some(self.host.apply2(Op2::Mul, x, self.options.scale())),
            None => None,
        }
    }

    fn find_compact(&self, card: Option<&crate::netlist::model_cards::ModelCard>, level: u64) -> (r: Option<String>)
        requires
            self.wf(),
        ensures
            text_opt(r) == self.tables().compact_module(card_opt(card), level),
    {
        if let Some(c) = card {
            let t = to_lower(&c.mtype);
            if self.va_models.get(&t).is_some() {
                return Some(t);
            }
        }
        self.model_aliases.get(self.host.nearest(level))
    }

    /// MOSFET: `M name drain gate source body [model] [params]`: the square law
    /// up to level 3; a compact model is routed to the Verilog-A module bound to
    /// it.
    pub fn place_mosfet(&self, st: &mut Placed, el: &Elem) -> (r: Result<(), Stop>)
        requires
            self.wf(),
            self.ready(*old(st)),
        ensures
            self.done(r, *final(st), self.tables().mosfet(old(st)@, el@)),
    {
        match el.need(5) {
            Err(e) => {
                return Err(Stop::Failed(e));
            },
            Ok(()) => {},
        }
        let tok = el.tok;
        let ghost t = el@.tok;
        assert(t[1] == tok@[1]@ && t[2] == tok@[2]@ && t[3] == tok@[3]@ && t[4] == tok@[4]@);
        let d: usize = st.node(&tok[1]);
        let g: usize = st.node(&tok[2]);
        let s: usize = st.node(&tok[3]);
        let body: usize = st.node(&tok[4]);
        let m = find_plain(tok, 5);
        let l = self.scaled_key(tok, "L");
        let w = self.scaled_key(tok, "W");
        let card = self.select(&m, l, w);
        let level: u64 = match card {
            Some(c) => value_or(find_param(&c.params, "level"), ONE),
            None => ONE,
        };
        let modelname = text_or(&m, el.base);
        let square: bool = !self.host.compares(Rel::Gt, level, LAST_SQUARE_LAW);
        let site = VaSite {
            name: el.name,
            modelname: &modelname,
            toks: tok,
            from: 5,
            card,
            polarity: Some(polarity_of(card, "pmos")),
            scale: Some(self.options.scale()),
            fingers: square,
            line: el.line_no,
            col: el.line_col,
        };
        if square {
            return place_va_device(
                st,
                &site,
                &self.world.stock.mos,
                ModelRef::Mos,
                four(d, g, s, body),
                self.params,
                self.host,
            );
        }
        if let Some(module) = self.find_compact(card, level) {
            if let Some(p) = self.va_models.get(&module) {
                assert(self.va_models@.contains_key(module@));
                let em = find_module(&self.world.va, p);
                if em.ports != 4 {
                    let mut msg = concat3("compact MOSFET '", el.name, "' routed to Verilog-A module '");
                    msg.append(&em.name);
                    msg.append("' with ");
                    msg.append(&decimal_text(em.ports as u64));
                    msg.append(" self.ports, but `M` provides 4 terminals (d g s b)");
                    return Err(el.refuse(&msg));
                }
                return place_va_device(
                    st,
                    &site,
                    em,
                    ModelRef::Va(p.0, p.1),
                    four(d, g, s, body),
                    self.params,
                    self.host,
                );
            }
        }
        let mname = text_or(&m, "?");
        let mut msg = concat3("MOSFET '", el.name, "' model '");
        msg.append(&mname);
        msg.append("' is a compact model (level ");
        msg.append(&self.host.shown(Style::Plain, level));
        msg.append(
            "); SANE has no native compact MOSFET (only the square-law levels 1-3). Provide it as Verilog-A: load the module with `.veriloga \"<file>.va\"` and bind this level with `.model_alias level=",
        );
        msg.append(&decimal_text(self.host.nearest(level) as u64));
        msg.append(" ");
        msg.append(&mname);
        msg.append("`, or use the `N` element with a `.model ");
        msg.append(&mname);
        msg.append(" <va-module> ...` card.");
        Err(el.refuse(&msg))
    }

    /// Bipolar transistor: `Q name collector base emitter [model] [area]`.
    pub fn place_bjt(&self, st: &mut Placed, el: &Elem) -> (r: Result<(), Stop>)
        requires
            self.wf(),
            self.ready(*old(st)),
        ensures
            self.done(r, *final(st), self.tables().bjt(old(st)@, el@)),
    {
        match el.need(4) {
            Err(e) => {
                return Err(Stop::Failed(e));
            },
            Ok(()) => {},
        }
        let tok = el.tok;
        let ghost t = el@.tok;
        assert(t[1] == tok@[1]@ && t[2] == tok@[2]@ && t[3] == tok@[3]@);
        let c: usize = st.node(&tok[1]);
        let b: usize = st.node(&tok[2]);
        let e: usize = st.node(&tok[3]);
        let m = find_name(tok, 4, self.params, self.host);
        let card = self.select(&m, None, None);
        let modelname = text_or(&m, el.base);
        let site = VaSite {
            name: el.name,
            modelname: &modelname,
            toks: tok,
            from: 4,
            card,
            polarity: Some(polarity_of(card, "pnp")),
            scale: None,
            fingers: false,
            line: el.line_no,
            col: el.line_col,
        };
        match place_va_device(
            st,
            &site,
            &self.world.stock.bjt,
            ModelRef::Bjt,
            three(c, b, e),
            self.params,
            self.host,
        ) {
            Err(x) => {
                return Err(x);
            },
            Ok(()) => {},
        }
        if let Some(area) = find_bare(tok, 4, self.params, self.host) {
            let n = &self.world.stock.bjt.names;
            let h = self.host;
            multiply(el.name, "Is", area, n, &mut st.values, h);
            multiply(el.name, "IKF", area, n, &mut st.values, h);
            multiply(el.name, "IKR", area, n, &mut st.values, h);
            multiply(el.name, "ISE", area, n, &mut st.values, h);
            multiply(el.name, "ISC", area, n, &mut st.values, h);
            let g: u64 = h.apply2(Op2::Div, ONE, area);
            multiply(el.name, "Rb", g, n, &mut st.values, h);
            multiply(el.name, "Rc", g, n, &mut st.values, h);
            multiply(el.name, "Re", g, n, &mut st.values, h);
        }
        Ok(())
    }

    fn place_fet(&self, st: &mut Placed, el: &Elem, module: &ModuleInfo, model: ModelRef, p_type: &str) -> (r: Result<
        (),
        Stop,
    >)
        requires
            self.wf(),
            self.ready(*old(st)),
        ensures
            self.done(r, *final(st), self.tables().junction_fet(old(st)@, el@, *module, model@, p_type@)),
    {
        match el.need(4) {
            Err(e) => {
                return Err(Stop::Failed(e));
            },
            Ok(()) => {},
        }
        let tok = el.tok;
        let ghost t = el@.tok;
        assert(t[1] == tok@[1]@ && t[2] == tok@[2]@ && t[3] == tok@[3]@);
        let d: usize = st.node(&tok[1]);
        let g: usize = st.node(&tok[2]);
        let s: usize = st.node(&tok[3]);
        let m = find_plain(tok, 4);
        let card = self.select(&m, None, None);
        let modelname = text_or(&m, el.base);
        let site = VaSite {
            name: el.name,
            modelname: &modelname,
            toks: tok,
            from: 4,
            card,
            polarity: Some(polarity_of(card, p_type)),
            scale: None,
            fingers: false,
            line: el.line_no,
            col: el.line_col,
        };
        place_va_device(st, &site, module, model, three(d, g, s), self.params, self.host)
    }

    /// JFET: `J name drain gate source [model]`.
    pub fn place_jfet(&self, st: &mut Placed, el: &Elem) -> (r: Result<(), Stop>)
        requires
            self.wf(),
            self.ready(*old(st)),
        ensures
            self.done(
                r,
                *final(st),
                self.tables().junction_fet(old(st)@, el@, self.world.stock.jfet, ModelRefView::Jfet, "pjf"@),
            ),
    {
        self.place_fet(st, el, &self.world.stock.jfet, ModelRef::Jfet, "pjf")
    }

    /// MESFET: `Z name drain gate source [model]`.
    pub fn place_zener(&self, st: &mut Placed, el: &Elem) -> (r: Result<(), Stop>)
        requires
            self.wf(),
            self.ready(*old(st)),
        ensures
            self.done(
                r,
                *final(st),
                self.tables().junction_fet(old(st)@, el@, self.world.stock.mesfet, ModelRefView::Mesfet, "pmf"@),
            ),
    {
        self.place_fet(st, el, &self.world.stock.mesfet, ModelRef::Mesfet, "pmf")
    }

    fn find_compiled(&self, st: &Placed, key: &str, card: Option<&crate::netlist::model_cards::ModelCard>) -> (r: Option<
        (usize, usize),
    >)
        requires
            self.ready(*st),
        ensures
            r == self.tables().compiled(st@, key@, card_opt(card)),
            r matches Some(p) ==> leads_osdi(self.world.osdi@, p),
    {
        if let Some(p) = st.osdi.get(key) {
            assert(st@.osdi.contains_key(key@));
            return Some(p);
        }
        match card {
            Some(c) => {
                let r = st.osdi.get(&to_lower(&c.mtype));
                assert(r is Some ==> st@.osdi.contains_key(lower(c.mtype@)));
                r
            },
            None => None,
        }
    }

    /// Verilog-A or compiled instance: `N<name> node... MODULENAME [p=v ...]`.
    pub fn place_osdi(&self, st: &mut Placed, el: &Elem) -> (r: Result<(), Stop>)
        requires
            self.wf(),
            self.ready(*old(st)),
            el.tok@.len() > 0,
        ensures
            self.done(r, *final(st), self.tables().module_instance(old(st)@, el@)),
    {
        let tok = el.tok;
        let ghost t = el@.tok;
        let end: usize = find_assignment(tok, 1);
        if end < 3 {
            return Err(el.refuse("veriloga instance needs node(s) and a model name"));
        }
        assert(t[end - 1] == tok@[end - 1]@);
        let modelname: &String = &tok[end - 1];
        let given: usize = end - 2;
        let key = to_lower(modelname);
        let some_key = Some(key.clone());
        let card = self.select(&some_key, None, None);
        if let Some(place) = self.find_compiled(st, &key, card) {
            let m = find_osdi(&self.world.osdi, place);
            if given != m.num_terminals {
                let mut msg = concat3("osdi model '", modelname, "' has ");
                msg.append(&decimal_text(m.num_terminals as u64));
                msg.append(" terminals, ");
                msg.append(&decimal_text(given as u64));
                msg.append(" connections given");
                return Err(el.refuse(&msg));
            }
            let terminals = place_nodes(st, tok, 1, end - 1);
            let site = OsdiSite {
                name: el.name,
                place,
                toks: tok,
                from: end - 1,
                card,
                temp_c: self.options.temp_c(),
                line: el.line_no,
                col: el.line_col,
            };
            return place_osdi_device(st, &site, m, terminals, self.params, &self.world.setups, self.host);
        }
        let p: (usize, usize) = match self.va_models.get(&key) {
            Some(p) => {
                assert(self.va_models@.contains_key(key@));
                p
            },
            None => match card {
                Some(c) => match self.va_models.get(&to_lower(&c.mtype)) {
                    Some(p) => {
                        assert(self.va_models@.contains_key(lower(c.mtype@)));
                        p
                    },
                    None => {
                        let mut msg = concat3("model '", modelname, "' has type '");
                        msg.append(&c.mtype);
                        msg.append("', which is not a Verilog-A module");
                        return Err(el.refuse(&msg));
                    },
                },
                None => {
                    return Err(el.refuse(&concat3("unknown veriloga model '", modelname, "'")));
                },
            },
        };
        let em = find_module(&self.world.va, p);
        if given != em.ports {
            let mut msg = concat3("veriloga model '", modelname, "' has ");
            msg.append(&decimal_text(em.ports as u64));
            msg.append(" self.ports, ");
            msg.append(&decimal_text(given as u64));
            msg.append(" connections given");
            return Err(el.refuse(&msg));
        }
        let terminals = place_nodes(st, tok, 1, end - 1);
        let site = VaSite {
            name: el.name,
            modelname,
            toks: tok,
            from: end - 1,
            card,
            polarity: None,
            scale: None,
            fingers: false,
            line: el.line_no,
            col: el.line_col,
        };
        place_va_device(st, &site, em, ModelRef::Va(p.0, p.1), terminals, self.params, self.host)
    }

    fn keyed_or(&self, el: &Elem, key: &str, d: u64) -> (r: u64)
        ensures
            r == or_value(keyed(self.tables().h, self.tables().env, el@.tok, 5, key@), d),
    {
        value_or(keyed_value(el.tok, 5, key, self.params, self.host), d)
    }

    fn find_totals(&self, el: &Elem) -> (r: (u64, u64, u64, u64))
        ensures
            r == self.tables().line_totals(el@),
    {
        if el.kind == 'T' {
            let z0: u64 = self.keyed_or(el, "Z0", FIFTY);
            let td: u64 = self.keyed_or(el, "TD", NANO);
            (ZERO, self.host.apply2(Op2::Mul, z0, td), ZERO, self.host.apply2(Op2::Div, td, z0))
        } else if el.kind == 'U' {
            (self.keyed_or(el, "R", ONE), ZERO, ZERO, self.keyed_or(el, "C", PICO))
        } else {
            (
                self.keyed_or(el, "R", ZERO),
                self.keyed_or(el, "L", ZERO),
                self.keyed_or(el, "G", ZERO),
                self.keyed_or(el, "C", ZERO),
            )
        }
    }

    fn count_sections(&self, el: &Elem) -> (r: usize)
        ensures
            r == sections_of(self.tables().h, keyed(self.tables().h, self.tables().env, el@.tok, 5, "N"@)),
            1 <= r <= MAX_SECTIONS,
    {
        match keyed_value(el.tok, 5, "N", self.params, self.host) {
            Some(v) => {
                let k: usize = self.host.truncated(v);
                if k < 1 {
                    1
                } else if k > MAX_SECTIONS {
                    MAX_SECTIONS
                } else {
                    k
                }
            },
            None => 16,
        }
    }

    /// Transmission line as a ladder of lumped sections: `T name n1 n2 n3 n4 [Z0=
    /// TD= | R= L= G= C=] [N=]`. Port 1 is (n1, n2), port 2 is (n3, n4); n2 is
    /// the reference of the shunt branches.
    pub fn place_lossy_line(&self, st: &mut Placed, el: &Elem) -> (r: Result<(), Stop>)
        requires
            self.ready(*old(st)),
        ensures
            self.done(r, *final(st), self.tables().lossy_line(old(st)@, el@)),
    {
        match el.need(5) {
            Err(e) => {
                return Err(Stop::Failed(e));
            },
            Ok(()) => {},
        }
        let tok = el.tok;
        let ghost t = el@.tok;
        assert(t[1] == tok@[1]@ && t[2] == tok@[2]@ && t[3] == tok@[3]@ && t[4] == tok@[4]@);
        let inp: usize = st.node(&tok[1]);
        let out: usize = st.node(&tok[3]);
        let reference: usize = st.node(&tok[2]);
        let _ = st.node(&tok[4]);
        let host = self.host;
        let ghost h = self.tables().h;
        let sections: usize = self.count_sections(el);
        let n: u64 = host.count(sections as i64);
        let (r, l, g, c) = self.find_totals(el);
        let rs: u64 = host.apply2(Op2::Div, r, n);
        let ls: u64 = host.apply2(Op2::Div, l, n);
        let gs: u64 = host.apply2(Op2::Div, g, n);
        let cs: u64 = host.apply2(Op2::Div, c, n);
        let ghost ladder = Ladder {
            name: el.name@,
            sections: sections as int,
            out,
            reference,
            rs,
            ls,
            gs,
            cs,
        };
        let ghost goal = ladder.from(h, st@, 0, inp);
        let has_r: bool = host.compares(Rel::Ne, rs, ZERO);
        let has_l: bool = host.compares(Rel::Ne, ls, ZERO);
        let has_c: bool = host.compares(Rel::Ne, cs, ZERO);
        let has_g: bool = host.compares(Rel::Ne, gs, ZERO);
        let gr: u64 = host.apply2(Op2::Div, ONE, gs);
        let mut prev: usize = inp;
        let mut k: usize = 0;
        while k < sections
            invariant
                self.ready(*st),
                k <= sections <= MAX_SECTIONS,
                ladder == (Ladder {
                    name: el.name@,
                    sections: sections as int,
                    out,
                    reference,
                    rs,
                    ls,
                    gs,
                    cs,
                }),
                has_r == compares(h, Rel::Ne, rs, ZERO),
                has_l == compares(h, Rel::Ne, ls, ZERO),
                has_c == compares(h, Rel::Ne, cs, ZERO),
                has_g == compares(h, Rel::Ne, gs, ZERO),
                gr == apply2(h, Op2::Div, ONE, gs),
                ladder.from(h, st@, k as int, prev) == goal,
            decreases sections - k,
        {
            let ghost s0 = st@;
            let num = decimal_text(k as u64);
            let node: usize = if k + 1 == sections {
                out
            } else {
                st.node(&concat3(el.name, ".x", &num))
            };
            let ghost s1 = st@;
            let rn = concat3(el.name, ".R", &num);
            let ln = concat3(el.name, ".L", &num);
            if has_r && has_l {
                let mid: usize = st.node(&concat3(el.name, ".r", &num));
                st.circuit.resistor(&rn, prev, mid);
                st.set_value(&rn, rs);
                st.circuit.inductor(&ln, mid, node);
                st.set_value(&ln, ls);
            } else if has_r {
                st.circuit.resistor(&rn, prev, node);
                st.set_value(&rn, rs);
            } else if has_l {
                st.circuit.inductor(&ln, prev, node);
                st.set_value(&ln, ls);
            } else {
                st.circuit.resistor(&rn, prev, node);
                st.set_value(&rn, NANO);
            }
            let ghost s2 = st@;
            assert(s2 == ladder.series(h, s1, k as int, prev, node));
            if has_c {
                let cn = concat3(el.name, ".C", &num);
                st.circuit.capacitor(&cn, node, reference);
                st.set_value(&cn, cs);
            }
            if has_g {
                let gn = concat3(el.name, ".G", &num);
                st.circuit.resistor(&gn, node, reference);
                st.set_value(&gn, gr);
            }
            assert(st@ == ladder.shunt(h, s2, k as int, node));
            prev = node;
            k += 1;
        }
        Ok(())
    }
}

} // verus!
