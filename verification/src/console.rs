//! The console's own commands, which start with `#` and stand alone on a
//! line: they act on the session rather than being FAR code.
use vstd::prelude::*;
use crate::text::chars_of;

verus! {

/// What a line typed at the console asks for.
#[derive(Clone, Copy, PartialEq, Eq, Debug)]
pub enum LineKind {
    /// `#quit` or `#q`: leave the console.
    Quit,
    /// `#stats` or `#s`: print the stack and the buffer.
    Stats,
    /// `#clear`, `#cls` or `#c`: clear the screen.
    ClearScreen,
    /// `#reset` or `#r`: empty the stack and the buffer.
    Reset,
    /// Anything else is FAR code.
    Code,
}

/// The kind of a (trimmed) console line.
pub open spec fn line_kind(l: Seq<char>) -> LineKind {
    if l == "#quit"@ || l == "#q"@ {
        LineKind::Quit
    } else if l == "#stats"@ || l == "#s"@ {
        LineKind::Stats
    } else if l == "#clear"@ || l == "#cls"@ || l == "#c"@ {
        LineKind::ClearScreen
    } else if l == "#reset"@ || l == "#r"@ {
        LineKind::Reset
    } else {
        LineKind::Code
    }
}

fn same_text(a: &Vec<char>, b: &str) -> (r: bool)
    ensures
        r == (a@ == b@),
{
    let bc = chars_of(b);
    if a.len() != bc.len() {
        return false;
    }
    let n = a.len();
    for i in 0..n
        invariant
            n == a@.len(),
            n == bc@.len(),
            bc@ == b@,
            forall|j: int| 0 <= j < i ==> a@[j] == bc@[j],
    {
        if a[i] != bc[i] {
            return false;
        }
    }
    assert(a@ =~= bc@);
    true
}

/// Tells the console's commands from FAR code.
pub fn classify(line: &str) -> (r: LineKind)
    ensures
        r == line_kind(line@),
{
    let l = chars_of(line);
    if same_text(&l, "#quit") || same_text(&l, "#q") {
        LineKind::Quit
    } else if same_text(&l, "#stats") || same_text(&l, "#s") {
        LineKind::Stats
    } else if same_text(&l, "#clear") || same_text(&l, "#cls") || same_text(&l, "#c") {
        LineKind::ClearScreen
    } else if same_text(&l, "#reset") || same_text(&l, "#r") {
        LineKind::Reset
    } else {
        LineKind::Code
    }
}

} // verus!
