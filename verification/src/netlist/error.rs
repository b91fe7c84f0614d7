//! Where and why a netlist was refused.
use crate::text::{decimal, decimal_text, lines, split_lines, texts};
use vstd::prelude::*;

verus! {

/// A parse failure located in the deck: the 1-based `line` and `col` of the
/// offending token. A `col` of 0 means the column is unknown.
#[derive(Debug, PartialEq)]
pub struct ParseError {
    pub line: usize,
    pub col: usize,
    pub msg: String,
}

pub struct ErrorView {
    pub line: int,
    pub col: int,
    pub msg: Seq<char>,
}

impl View for ParseError {
    type V = ErrorView;

    open spec fn view(&self) -> ErrorView {
        ErrorView { line: self.line as int, col: self.col as int, msg: self.msg@ }
    }
}

impl ErrorView {
    /// `line 3:5: message`, without the column where it is unknown.
    pub open spec fn message(self) -> Seq<char> {
        if self.col == 0 {
            "line "@ + decimal(self.line as nat) + ": "@ + self.msg
        } else {
            "line "@ + decimal(self.line as nat) + ":"@ + decimal(self.col as nat) + ": "@ + self.msg
        }
    }

    /// A `netlist:line:col: error: message` header, followed, where the column is
    /// known, by the source line and a caret under the column.
    pub open spec fn rendered(self, source: Seq<char>) -> Seq<char> {
        let head = "netlist:"@ + decimal(self.line as nat) + ":"@ + decimal(self.col as nat) + ": error: "@ + self.msg
            + "\n"@;
        let all = lines(source);
        if self.col == 0 || self.line == 0 || self.line > all.len() {
            head
        } else {
            head + all[self.line - 1] + "\n"@ + blanks((self.col - 1) as nat) + "^\n"@
        }
    }
}

/// A run of spaces.
pub open spec fn blanks(n: nat) -> Seq<char> {
    Seq::new(n, |i: int| ' ')
}

impl ParseError {
    /// The error as one line of text.
    pub fn message(&self) -> (r: String)
        ensures
            r@ == self@.message(),
    {
        let mut out = "line ".to_owned();
        out.append(&decimal_text(self.line as u64));
        if self.col != 0 {
            out.append(":");
            out.append(&decimal_text(self.col as u64));
        }
        out.append(": ");
        out.append(&self.msg);
        out
    }

    /// Render this error against the deck it was found in.
    pub fn render(&self, source: &str) -> (r: String)
        ensures
            r@ == self@.rendered(source@),
    {
        let mut out = "netlist:".to_owned();
        out.append(&decimal_text(self.line as u64));
        out.append(":");
        out.append(&decimal_text(self.col as u64));
        out.append(": error: ");
        out.append(&self.msg);
        out.append("\n");
        let all = split_lines(source);
        if self.col == 0 || self.line == 0 || self.line > all.len() {
            return out;
        }
        assert(texts(all@)[self.line - 1] == all@[self.line - 1]@);
        out.append(&all[self.line - 1]);
        out.append("\n");
        let ghost before = out@;
        let n: usize = self.col - 1;
        for i in 0..n
            invariant
                out@ =~= before + blanks(i as nat),
        {
            proof {
                reveal_strlit(" ");
                assert(blanks(i as nat) + " "@ =~= blanks((i + 1) as nat));
            }
            out.append(" ");
        }
        out.append("^\n");
        out
    }
}

/// An error of a whole line.
pub(crate) fn err(line: usize, msg: &str) -> (r: ParseError)
    ensures
        r@ == (ErrorView { line: line as int, col: 0, msg: msg@ }),
{
    ParseError { line, col: 0, msg: msg.to_owned() }
}

/// An error at a column.
pub(crate) fn err_at(line: usize, col: usize, msg: &str) -> (r: ParseError)
    ensures
        r@ == (ErrorView { line: line as int, col: col as int, msg: msg@ }),
{
    ParseError { line, col, msg: msg.to_owned() }
}

} // verus!
