//! Compatibility report of a parsed netlist: what of a deck was not honoured.
use crate::text::{chars_of, concat3, join, join_texts, same, texts};
use vstd::prelude::*;

verus! {

// ---------------------------------------------------------------------------
// Sorted names.
// ---------------------------------------------------------------------------
/// Dictionary order by code point.
pub open spec fn text_less(a: Seq<char>, b: Seq<char>) -> bool
    decreases a.len(),
{
    if b.len() == 0 {
        false
    } else if a.len() == 0 {
        true
    } else if a[0] == b[0] {
        text_less(a.skip(1), b.skip(1))
    } else {
        a[0] < b[0]
    }
}

pub proof fn text_less_total(a: Seq<char>, b: Seq<char>)
    ensures
        a == b || text_less(a, b) || text_less(b, a),
        !(text_less(a, b) && text_less(b, a)),
        text_less(a, b) ==> a != b,
    decreases a.len(),
{
    if a.len() > 0 && b.len() > 0 && a[0] == b[0] {
        text_less_total(a.skip(1), b.skip(1));
        if a.skip(1) == b.skip(1) {
            assert(a =~= seq![a[0]] + a.skip(1));
            assert(b =~= seq![b[0]] + b.skip(1));
        }
    } else if a.len() == 0 && b.len() == 0 {
        assert(a =~= b);
    }
}

pub proof fn text_less_transitive(a: Seq<char>, b: Seq<char>, c: Seq<char>)
    requires
        text_less(a, b),
        text_less(b, c),
    ensures
        text_less(a, c),
    decreases a.len(),
{
    if a.len() > 0 && b.len() > 0 && c.len() > 0 && a[0] == b[0] && b[0] == c[0] {
        text_less_transitive(a.skip(1), b.skip(1), c.skip(1));
    }
}

pub fn comes_before(a: &str, b: &str) -> (r: bool)
    ensures
        r == text_less(a@, b@),
{
    let v = chars_of(a);
    let w = chars_of(b);
    let mut i: usize = 0;
    assert(a@.skip(0) =~= a@);
    assert(b@.skip(0) =~= b@);
    while i < v.len() && i < w.len() && v[i] == w[i]
        invariant
            v@ == a@,
            w@ == b@,
            i <= v@.len(),
            i <= w@.len(),
            text_less(a@.skip(i as int), b@.skip(i as int)) == text_less(a@, b@),
        decreases v@.len() - i,
    {
        proof {
            assert(a@.skip(i as int).skip(1) =~= a@.skip(i + 1));
            assert(b@.skip(i as int).skip(1) =~= b@.skip(i + 1));
        }
        i += 1;
    }
    if i == w.len() {
        false
    } else if i == v.len() {
        true
    } else {
        v[i] < w[i]
    }
}

/// In ascending order, each name once.
pub open spec fn ascending_texts(s: Seq<Seq<char>>) -> bool {
    forall|i: int, j: int| 0 <= i < j < s.len() ==> text_less(#[trigger] s[i], #[trigger] s[j])
}

/// The names with one more, at its place in the order.
pub open spec fn inserted(s: Seq<Seq<char>>, x: Seq<char>) -> Seq<Seq<char>>
    decreases s.len(),
{
    if s.len() == 0 {
        seq![x]
    } else if s[0] == x {
        s
    } else if text_less(x, s[0]) {
        seq![x] + s
    } else {
        seq![s[0]] + inserted(s.skip(1), x)
    }
}

/// Inserting keeps the order, adds the name and nothing else.
pub proof fn inserted_is_sorted_set(s: Seq<Seq<char>>, x: Seq<char>)
    requires
        ascending_texts(s),
    ensures
        ascending_texts(inserted(s, x)),
        forall|y: Seq<char>| #[trigger] inserted(s, x).contains(y) <==> s.contains(y) || y == x,
    decreases s.len(),
{
    let r = inserted(s, x);
    if s.len() == 0 {
        assert(r[0] == x);
    } else if s[0] == x {
        assert(s.contains(x));
    } else {
        let t = s.skip(1);
        assert forall|i: int, j: int| 0 <= i < j < t.len() implies text_less(#[trigger] t[i], #[trigger] t[j]) by {
            assert(text_less(s[i + 1], s[j + 1]));
        }
        text_less_total(x, s[0]);
        if text_less(x, s[0]) {
            assert forall|i: int, j: int| 0 <= i < j < r.len() implies text_less(#[trigger] r[i], #[trigger] r[j]) by {
                if i > 0 {
                    assert(text_less(s[i - 1], s[j - 1]));
                } else if j > 1 {
                    assert(text_less(s[0], s[j - 1]));
                    text_less_transitive(x, s[0], s[j - 1]);
                }
            }
            assert forall|y: Seq<char>| #[trigger] r.contains(y) <==> s.contains(y) || y == x by {
                if s.contains(y) {
                    let k = choose|k: int| 0 <= k < s.len() && s[k] == y;
                    assert(r[k + 1] == y);
                }
                if y == x {
                    assert(r[0] == y);
                }
                if r.contains(y) {
                    let k = choose|k: int| 0 <= k < r.len() && r[k] == y;
                    if k > 0 {
                        assert(s[k - 1] == y);
                    }
                }
            }
        } else {
            inserted_is_sorted_set(t, x);
            let u = inserted(t, x);
            assert forall|i: int, j: int| 0 <= i < j < r.len() implies text_less(#[trigger] r[i], #[trigger] r[j]) by {
                if i > 0 {
                    assert(text_less(u[i - 1], u[j - 1]));
                } else {
                    assert(u.contains(u[j - 1]));
                    assert(t.contains(u[j - 1]) || u[j - 1] == x);
                    if u[j - 1] != x {
                        let k = choose|k: int| 0 <= k < t.len() && t[k] == u[j - 1];
                        assert(text_less(s[0], s[k + 1]));
                    }
                }
            }
            assert forall|y: Seq<char>| #[trigger] r.contains(y) <==> s.contains(y) || y == x by {
                if r.contains(y) {
                    let k = choose|k: int| 0 <= k < r.len() && r[k] == y;
                    if k > 0 {
                        assert(u[k - 1] == y);
                        assert(u.contains(y));
                        if y != x {
                            let m = choose|m: int| 0 <= m < t.len() && t[m] == y;
                            assert(s[m + 1] == y);
                        }
                    } else {
                        assert(s[0] == y);
                    }
                }
                if s.contains(y) || y == x {
                    if y == s[0] {
                        assert(r[0] == y);
                    } else {
                        if s.contains(y) {
                            let m = choose|m: int| 0 <= m < s.len() && s[m] == y;
                            assert(t[m - 1] == y);
                        }
                        assert(u.contains(y));
                        let k = choose|k: int| 0 <= k < u.len() && u[k] == y;
                        assert(r[k + 1] == y);
                    }
                }
            }
        }
    }
}

/// A set of names, kept in ascending order.
#[derive(Debug)]
pub struct NameSet {
    items: Vec<String>,
}

impl View for NameSet {
    type V = Seq<Seq<char>>;

    closed spec fn view(&self) -> Seq<Seq<char>> {
        texts(self.items@)
    }
}

impl NameSet {
    pub fn new() -> (r: NameSet)
        ensures
            r@ == Seq::<Seq<char>>::empty(),
            ascending_texts(r@),
    {
        let r = NameSet { items: Vec::new() };
        assert(r@ =~= Seq::<Seq<char>>::empty());
        r
    }

    pub fn is_empty(&self) -> (r: bool)
        ensures
            r == (self@.len() == 0),
    {
        self.items.len() == 0
    }

    pub fn len(&self) -> (r: usize)
        ensures
            r == self@.len(),
    {
        self.items.len()
    }

    /// The names in ascending order.
    pub fn names(&self) -> (r: &Vec<String>)
        ensures
            texts(r@) == self@,
    {
        &self.items
    }

    pub fn contains(&self, name: &str) -> (r: bool)
        ensures
            r == self@.contains(name@),
    {
        crate::text::contains_text(&self.items, name)
    }

    pub fn insert(&mut self, name: String)
        requires
            ascending_texts(old(self)@),
        ensures
            final(self)@ == inserted(old(self)@, name@),
            ascending_texts(final(self)@),
    {
        let ghost all = self@;
        let mut i: usize = 0;
        proof {
            inserted_is_sorted_set(all, name@);
            assert(all.skip(0) =~= all);
            assert(all.take(0) + inserted(all, name@) =~= inserted(all, name@));
        }
        while i < self.items.len() && comes_before(&self.items[i], &name)
            invariant
                i <= self.items@.len(),
                all == texts(self.items@),
                all.take(i as int) + inserted(all.skip(i as int), name@) == inserted(all, name@),
            decreases self.items@.len() - i,
        {
            proof {
                let rest = all.skip(i as int);
                assert(rest[0] == self.items@[i as int]@);
                text_less_total(rest[0], name@);
                assert(rest.skip(1) =~= all.skip(i + 1));
                assert(all.take(i as int) + (seq![rest[0]] + inserted(rest.skip(1), name@)) =~= all.take(
                    i + 1,
                ) + inserted(rest.skip(1), name@));
            }
            i += 1;
        }
        let ghost rest = all.skip(i as int);
        if i < self.items.len() && same(&self.items[i], &name) {
            assert(rest[0] == name@);
            assert(all.take(i as int) + rest =~= all);
            return;
        }
        proof {
            if i < all.len() {
                assert(rest[0] == self.items@[i as int]@);
                text_less_total(rest[0], name@);
                assert(all.take(i as int) + (seq![name@] + rest) =~= all.insert(i as int, name@));
            } else {
                assert(all.take(i as int) + seq![name@] =~= all.insert(i as int, name@));
            }
        }
        self.items.insert(i, name);
        assert(texts(self.items@) =~= all.insert(i as int, name@));
    }
}

// ---------------------------------------------------------------------------
// The report.
// ---------------------------------------------------------------------------
/// What the parser did with the parts of a deck it did not fully model.
#[derive(Debug)]
pub struct CompatReport {
    /// Directive heads the netlist parser ignored (e.g. `.print`, `.ic`).
    pub ignored_directives: NameSet,
    /// Parameters a deck set that no device model consumed, as `"<inst>: <key>"`.
    pub unknown_params: NameSet,
    /// Free-form notes (e.g. a global option that was recorded but not applied).
    pub notes: Vec<String>,
}

pub struct ReportView {
    pub ignored_directives: Seq<Seq<char>>,
    pub unknown_params: Seq<Seq<char>>,
    pub notes: Seq<Seq<char>>,
}

impl View for CompatReport {
    type V = ReportView;

    open spec fn view(&self) -> ReportView {
        ReportView {
            ignored_directives: self.ignored_directives@,
            unknown_params: self.unknown_params@,
            notes: texts(self.notes@),
        }
    }
}

impl ReportView {
    pub open spec fn empty() -> ReportView {
        ReportView { ignored_directives: seq![], unknown_params: seq![], notes: seq![] }
    }

    pub open spec fn wf(self) -> bool {
        ascending_texts(self.ignored_directives) && ascending_texts(self.unknown_params)
    }

    pub open spec fn clean(self) -> bool {
        self.ignored_directives.len() == 0 && self.unknown_params.len() == 0 && self.notes.len() == 0
    }

    pub open spec fn with_unknown(self, inst: Seq<char>, key: Seq<char>) -> ReportView {
        ReportView { unknown_params: inserted(self.unknown_params, inst + ": "@ + key), ..self }
    }

    pub open spec fn with_ignored(self, head: Seq<char>) -> ReportView {
        ReportView { ignored_directives: inserted(self.ignored_directives, head), ..self }
    }

    pub open spec fn with_note(self, note: Seq<char>) -> ReportView {
        ReportView { notes: self.notes.push(note), ..self }
    }

    /// With a note on each of the options that are not recognised.
    pub open spec fn with_unknown_options(self, names: Seq<Seq<char>>) -> ReportView
        decreases names.len(),
    {
        if names.len() == 0 {
            self
        } else {
            self.with_unknown_options(names.drop_last()).with_note(
                "unknown option '"@ + names.last() + "' ignored"@,
            )
        }
    }

    /// A multi-line summary, one line for each thing not honoured.
    pub open spec fn summary(self) -> Seq<char> {
        let a = if self.ignored_directives.len() > 0 {
            "ignored directives: "@ + join(self.ignored_directives, ", "@) + "\n"@
        } else {
            seq![]
        };
        let b = if self.unknown_params.len() > 0 {
            "unknown parameters (dropped): "@ + join(self.unknown_params, ", "@) + "\n"@
        } else {
            seq![]
        };
        a + b + note_lines(self.notes)
    }
}

pub open spec fn note_lines(notes: Seq<Seq<char>>) -> Seq<char>
    decreases notes.len(),
{
    if notes.len() == 0 {
        seq![]
    } else {
        note_lines(notes.drop_last()) + notes.last() + "\n"@
    }
}

impl CompatReport {
    pub fn new() -> (r: CompatReport)
        ensures
            r@ == ReportView::empty(),
            r@.wf(),
    {
        let notes: Vec<String> = Vec::new();
        assert(texts(notes@) =~= seq![]);
        CompatReport { ignored_directives: NameSet::new(), unknown_params: NameSet::new(), notes }
    }

    /// Whether everything in the deck was fully honoured.
    pub fn is_clean(&self) -> (r: bool)
        ensures
            r == self@.clean(),
    {
        assert(texts(self.notes@).len() == self.notes@.len());
        self.ignored_directives.is_empty() && self.unknown_params.is_empty() && self.notes.len() == 0
    }

    /// Record an unknown parameter for instance `inst`.
    pub(crate) fn unknown_param(&mut self, inst: &str, key: &str)
        requires
            old(self)@.wf(),
        ensures
            final(self)@ == old(self)@.with_unknown(inst@, key@),
            final(self)@.wf(),
    {
        self.unknown_params.insert(concat3(inst, ": ", key));
    }

    pub(crate) fn ignore(&mut self, head: String)
        requires
            old(self)@.wf(),
        ensures
            final(self)@ == old(self)@.with_ignored(head@),
            final(self)@.wf(),
    {
        self.ignored_directives.insert(head);
    }

    pub(crate) fn note(&mut self, text: String)
        requires
            old(self)@.wf(),
        ensures
            final(self)@ == old(self)@.with_note(text@),
            final(self)@.wf(),
    {
        let ghost before = texts(self.notes@);
        self.notes.push(text);
        assert(texts(self.notes@) =~= before.push(text@));
    }

    /// A human-readable multi-line summary (empty string when clean).
    pub fn summary(&self) -> (r: String)
        ensures
            r@ == self@.summary(),
    {
        let mut s = String::new();
        let ghost a = if self@.ignored_directives.len() > 0 {
            "ignored directives: "@ + join(self@.ignored_directives, ", "@) + "\n"@
        } else {
            seq![]
        };
        let ghost b = if self@.unknown_params.len() > 0 {
            "unknown parameters (dropped): "@ + join(self@.unknown_params, ", "@) + "\n"@
        } else {
            seq![]
        };
        if !self.ignored_directives.is_empty() {
            s = concat3("ignored directives: ", &join_texts(self.ignored_directives.names(), ", "), "\n");
        }
        assert(s@ =~= a);
        if !self.unknown_params.is_empty() {
            let t = concat3(
                "unknown parameters (dropped): ",
                &join_texts(self.unknown_params.names(), ", "),
                "\n",
            );
            s.append(&t);
        }
        assert(s@ =~= a + b);
        let ghost notes = texts(self.notes@);
        assert(notes.take(0) =~= seq![]);
        assert(a + b + note_lines(notes.take(0)) =~= a + b);
        for i in 0..self.notes.len()
            invariant
                notes == texts(self.notes@),
                s@ == a + b + note_lines(notes.take(i as int)),
        {
            proof {
                assert(notes.take(i + 1).drop_last() =~= notes.take(i as int));
                assert(notes.take(i + 1).last() == self.notes@[i as int]@);
            }
            s.append(&self.notes[i]);
            s.append("\n");
            assert(s@ =~= a + b + note_lines(notes.take(i + 1)));
        }
        assert(notes.take(notes.len() as int) =~= notes);
        s
    }
}

/// The summary is empty exactly when the report is clean.
pub proof fn summary_is_empty_when_clean(r: ReportView)
    ensures
        r.summary().len() == 0 <==> r.clean(),
{
    reveal_strlit("\n");
    if r.notes.len() > 0 {
        assert(note_lines(r.notes).len() > 0);
    }
}

} // verus!
