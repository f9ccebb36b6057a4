//! The interpreter of a line of FAR code, as a machine that the caller runs:
//! each step executes (part of) one unit and tells the caller what outside
//! work it needs (printing, reading a line, or arithmetic on doubles), and
//! the caller hands back the outcome with the next step.
use vstd::prelude::*;
use crate::error::{FarError, Fault};
use crate::input::{
    chunks, code_units, input_queries, input_readable, read_values, split_chunks, queries_of,
    units_of_chars, values_of, law_chunks_cover,
};
use crate::output::{convert, pretty, prettyformat, string_texts, tryconvert};
use crate::store::{
    Store, StoreView, arith_operands, clear_step, concat_step, duplicate_step, filter_default,
    filter_operands, load_step, loop_blocked, or_empty, overlay_step, push_step, recall_step,
    skip_step, split_step, take_step, unless_empty, copy_of, is_prefix,
};
use crate::text::{chars_of, texts, string_of};
use crate::token::{Command, Relation, check_unit, command, command_of, line_units, unit_check, units_of};
use crate::vector::{arith_pairs, arith_result, filter, kept, opt_view, rows, vecop, vecop_pairs};

verus! {

/// One running interpretation of a line (the part of a line after its first
/// `(` is interpreted again and again, nested in the interpretation of the
/// whole line): its units are those of the line from `start` on, `pos`
/// is the unit to execute next, and `replace` tells whether the next number
/// loaded replaces the buffer (true until the first load).
#[derive(Clone, Copy)]
pub struct Frame {
    pub start: usize,
    pub pos: usize,
    pub replace: bool,
}

/// What the machine waits for.
pub enum Pending {
    /// The next unit.
    Ready,
    /// Nothing: the line is done.
    Finished,
    /// Whether the unit reads as a number.
    Number,
    /// A line of input.
    Input,
    /// Which strings of the input read as numbers.
    InputParse { text: Vec<char>, chunks: Vec<Vec<char>> },
    /// The values of the input's character codes.
    InputEncode { text: Vec<char>, chunks: Vec<Vec<char>>, parsed: Vec<Option<u64>> },
    /// The results of an arithmetic instruction's pairs.
    Apply { first: Option<Vec<u64>>, second: Option<Vec<u64>> },
    /// The comparisons of a filter.
    Compare { vector: Vec<u64> },
    /// The rounded array.
    Round,
    /// The text of each element to print.
    Show,
    /// The integer part of each element to print as text.
    Codes,
}

/// The mathematical value of a `Pending`.
pub enum PendingView {
    Ready,
    Finished,
    Number,
    Input,
    InputParse { text: Seq<char>, chunks: Seq<Seq<char>> },
    InputEncode { text: Seq<char>, chunks: Seq<Seq<char>>, parsed: Seq<Option<u64>> },
    Apply { first: Option<Seq<u64>>, second: Option<Seq<u64>> },
    Compare { vector: Seq<u64> },
    Round,
    Show,
    Codes,
}

impl View for Pending {
    type V = PendingView;

    open spec fn view(&self) -> PendingView {
        match self {
            Pending::Ready => PendingView::Ready,
            Pending::Finished => PendingView::Finished,
            Pending::Number => PendingView::Number,
            Pending::Input => PendingView::Input,
            Pending::InputParse { text, chunks } => PendingView::InputParse {
                text: text@,
                chunks: texts(chunks@),
            },
            Pending::InputEncode { text, chunks, parsed } => PendingView::InputEncode {
                text: text@,
                chunks: texts(chunks@),
                parsed: parsed@,
            },
            Pending::Apply { first, second } => PendingView::Apply {
                first: opt_view(*first),
                second: opt_view(*second),
            },
            Pending::Compare { vector } => PendingView::Compare { vector: vector@ },
            Pending::Round => PendingView::Round,
            Pending::Show => PendingView::Show,
            Pending::Codes => PendingView::Codes,
        }
    }
}

/// What the caller is asked to do after a step.
pub enum Action {
    /// Nothing: step again.
    Proceed,
    /// Print the text on a line of its own.
    Print(String),
    /// Print `[error]` and the error's message (an error ended a loop).
    Report(FarError),
    /// Read a line of input (trimmed) and hand it back.
    ReadInput,
    /// Read each string as a double (`f64::from_str`), handing back the bits of
    /// each, or none where it is no number.
    Parse(Vec<String>),
    /// Compute `x op y` for each pair (as doubles), handing back the bits.
    Apply(char, Vec<(u64, u64)>),
    /// Compare each element of the array with each element of the pattern
    /// (`x == p`, `x > p` or `x < p`), handing back one row per element.
    Compare(Relation, Vec<u64>, Vec<u64>),
    /// Round each element (`f64::round`), handing back the bits.
    Round(Vec<u64>),
    /// Write each element with `Debug`, handing back the texts.
    Show(Vec<u64>),
    /// Convert each element to `i64` (`as i64`), handing back the integers.
    Codes(Vec<u64>),
    /// Convert each code unit to a double, handing back the bits.
    Encode(Vec<u16>),
    /// `?` is met, which is not implemented: the caller stops.
    Unimplemented,
    /// The line is done, with the error that ended it, if any.
    Done(Result<(), FarError>),
}

/// The mathematical value of an `Action`.
pub enum ActionView {
    Proceed,
    Print(Seq<char>),
    Report(Fault),
    ReadInput,
    Parse(Seq<Seq<char>>),
    Apply(char, Seq<(u64, u64)>),
    Compare(Relation, Seq<u64>, Seq<u64>),
    Round(Seq<u64>),
    Show(Seq<u64>),
    Codes(Seq<u64>),
    Encode(Seq<u16>),
    Unimplemented,
    Done(Result<(), Fault>),
}

impl View for Action {
    type V = ActionView;

    open spec fn view(&self) -> ActionView {
        match self {
            Action::Proceed => ActionView::Proceed,
            Action::Print(s) => ActionView::Print(s@),
            Action::Report(e) => ActionView::Report(e@),
            Action::ReadInput => ActionView::ReadInput,
            Action::Parse(v) => ActionView::Parse(string_texts(v@)),
            Action::Apply(op, v) => ActionView::Apply(*op, v@),
            Action::Compare(r, v, p) => ActionView::Compare(*r, v@, p@),
            Action::Round(v) => ActionView::Round(v@),
            Action::Show(v) => ActionView::Show(v@),
            Action::Codes(v) => ActionView::Codes(v@),
            Action::Encode(v) => ActionView::Encode(v@),
            Action::Unimplemented => ActionView::Unimplemented,
            Action::Done(r) => ActionView::Done(
                match r {
                    Ok(()) => Ok(()),
                    Err(e) => Err(e@),
                },
            ),
        }
    }
}

/// What the caller hands back with a step.
pub enum Event {
    /// Nothing (the action needed no answer).
    Resume,
    /// The line read, or the reader's error message.
    Input(Result<String, String>),
    /// The answers to `Parse`.
    Parsed(Vec<Option<u64>>),
    /// The answers to `Apply`, `Round` and `Encode`.
    Values(Vec<u64>),
    /// The answers to `Compare`.
    Table(Vec<Vec<bool>>),
    /// The answers to `Codes`.
    Codes(Vec<i64>),
    /// The answers to `Show`.
    Texts(Vec<String>),
}

/// The mathematical value of an `Event`.
pub enum EventView {
    Resume,
    Input(Result<Seq<char>, Seq<char>>),
    Parsed(Seq<Option<u64>>),
    Values(Seq<u64>),
    Table(Seq<Seq<bool>>),
    Codes(Seq<i64>),
    Texts(Seq<Seq<char>>),
}

impl View for Event {
    type V = EventView;

    open spec fn view(&self) -> EventView {
        match self {
            Event::Resume => EventView::Resume,
            Event::Input(r) => EventView::Input(
                match r {
                    Ok(t) => Ok(t@),
                    Err(m) => Err(m@),
                },
            ),
            Event::Parsed(v) => EventView::Parsed(v@),
            Event::Values(v) => EventView::Values(v@),
            Event::Table(t) => EventView::Table(rows(t@)),
            Event::Codes(v) => EventView::Codes(v@),
            Event::Texts(v) => EventView::Texts(string_texts(v@)),
        }
    }
}

/// A FAR session: its data and the interpretation of the current line.
pub struct Interpreter {
    store: Store,
    units: Vec<Vec<char>>,
    frames: Vec<Frame>,
    pending: Pending,
}

/// The mathematical value of an `Interpreter`.
pub struct RunView {
    pub store: StoreView,
    pub units: Seq<Seq<char>>,
    pub frames: Seq<Frame>,
    pub pending: PendingView,
}

impl View for Interpreter {
    type V = RunView;

    closed spec fn view(&self) -> RunView {
        RunView {
            store: self.store@,
            units: texts(self.units@),
            frames: self.frames@,
            pending: self.pending@,
        }
    }
}

/// The innermost running interpretation.
pub open spec fn top(s: RunView) -> Frame {
    s.frames.last()
}

/// The state with its innermost interpretation replaced.
pub open spec fn with_top(s: RunView, f: Frame) -> RunView {
    RunView {
        store: s.store,
        units: s.units,
        frames: s.frames.update(s.frames.len() - 1, f),
        pending: s.pending,
    }
}

/// The state with other data.
pub open spec fn with_store(s: RunView, st: StoreView) -> RunView {
    RunView { store: st, units: s.units, frames: s.frames, pending: s.pending }
}

/// The state waiting for something else.
pub open spec fn with_pending(s: RunView, p: PendingView) -> RunView {
    RunView { store: s.store, units: s.units, frames: s.frames, pending: p }
}

/// The current unit is done: the next one is due.
pub open spec fn advanced(s: RunView) -> RunView {
    let f = top(s);
    with_pending(with_top(s, Frame { start: f.start, pos: (f.pos + 1) as usize, replace: f.replace }), PendingView::Ready)
}

/// Numbers were loaded: the next one is appended, and the next unit is due.
pub open spec fn loaded(s: RunView, values: Seq<u64>) -> RunView {
    let f = top(s);
    with_pending(
        with_top(
            with_store(s, load_step(s.store, values, f.replace)),
            Frame { start: f.start, pos: (f.pos + 1) as usize, replace: false },
        ),
        PendingView::Ready,
    )
}

/// The innermost interpretation ends without error: the line is done, or
/// the loop body starts over (a new interpretation, whose first number
/// replaces the buffer again).
pub open spec fn end_ok(s: RunView) -> (RunView, ActionView) {
    if s.frames.len() <= 1 {
        (with_pending(s, PendingView::Finished), ActionView::Done(Ok(())))
    } else {
        let f = top(s);
        (
            with_pending(with_top(s, Frame { start: f.start, pos: f.start, replace: true }), PendingView::Ready),
            ActionView::Proceed,
        )
    }
}

/// The innermost interpretation ends with an error: the line is done with
/// that error, or the loop ends and the interpretation around it goes on
/// after its `(`; the error is reported unless it is the one of `\`.
pub open spec fn end_err(s: RunView, e: Fault) -> (RunView, ActionView) {
    if s.frames.len() <= 1 {
        (with_pending(s, PendingView::Finished), ActionView::Done(Err(e)))
    } else {
        let rest = s.frames.drop_last();
        let p = rest.last();
        (
            RunView {
                store: s.store,
                units: s.units,
                frames: rest.update(rest.len() - 1, Frame { start: p.start, pos: (p.pos + 1) as usize, replace: p.replace }),
                pending: PendingView::Ready,
            },
            if e is Break {
                ActionView::Proceed
            } else {
                ActionView::Report(e)
            },
        )
    }
}

/// The position of the first `(` unit from `k` on (the length of `units` if
/// there is none).
pub open spec fn paren_from(units: Seq<Seq<char>>, k: int) -> int
    decreases units.len() - k,
{
    if k < 0 || k >= units.len() {
        units.len() as int
    } else if units[k] == seq!['('] {
        k
    } else {
        paren_from(units, k + 1)
    }
}

/// What executing a checked unit with the given instruction does.
pub open spec fn command_step(s: RunView, c: Command, u: Seq<char>) -> (RunView, ActionView) {
    let f = top(s);
    match c {
        Command::Push => (advanced(with_store(s, push_step(s.store))), ActionView::Proceed),
        Command::Duplicate => (advanced(with_store(s, duplicate_step(s.store))), ActionView::Proceed),
        Command::Clear => (advanced(with_store(s, clear_step(s.store))), ActionView::Proceed),
        Command::Recall => (advanced(with_store(s, recall_step(s.store))), ActionView::Proceed),
        Command::Concat => (advanced(with_store(s, concat_step(s.store))), ActionView::Proceed),
        Command::Overlay => (advanced(with_store(s, overlay_step(s.store))), ActionView::Proceed),
        Command::Split => (advanced(with_store(s, split_step(s.store))), ActionView::Proceed),
        Command::Show => {
            let (out, st) = take_step(s.store);
            let st2 = StoreView { stack: st.stack, buffer: None };
            match out {
                Some(v) => (with_pending(with_store(s, st2), PendingView::Show), ActionView::Show(v)),
                None => (advanced(with_store(s, st2)), ActionView::Proceed),
            }
        },
        Command::Write => {
            let (out, st) = take_step(s.store);
            match out {
                Some(v) => (with_pending(with_store(s, st), PendingView::Codes), ActionView::Codes(v)),
                None => (advanced(with_store(s, st)), ActionView::Proceed),
            }
        },
        Command::Read => (with_pending(s, PendingView::Input), ActionView::ReadInput),
        Command::Conditional => (with_pending(s, PendingView::Finished), ActionView::Unimplemented),
        Command::SkipIf => {
            let (skip, st) = skip_step(s.store);
            if skip {
                end_ok(with_store(s, st))
            } else {
                (advanced(with_store(s, st)), ActionView::Proceed)
            }
        },
        Command::Arith(op) => {
            let (a, b, rest) = arith_operands(s.store);
            (
                with_pending(
                    with_store(s, StoreView { stack: rest, buffer: s.store.buffer }),
                    PendingView::Apply { first: a, second: b },
                ),
                ActionView::Apply(op, arith_pairs(a, b)),
            )
        },
        Command::Filter(rel) => {
            let (p, v, rest) = filter_operands(s.store);
            match v {
                Some(vec) => (
                    with_pending(
                        with_store(s, StoreView { stack: rest, buffer: s.store.buffer }),
                        PendingView::Compare { vector: vec },
                    ),
                    ActionView::Compare(rel, vec, or_empty(p)),
                ),
                None => (
                    advanced(
                        with_store(
                            s,
                            StoreView { stack: rest, buffer: unless_empty(filter_default(p)) },
                        ),
                    ),
                    ActionView::Proceed,
                ),
            }
        },
        Command::Round => {
            let (out, st) = take_step(s.store);
            match out {
                Some(v) => (with_pending(with_store(s, st), PendingView::Round), ActionView::Round(v)),
                None => (advanced(with_store(s, st)), ActionView::Proceed),
            }
        },
        Command::Loop => if loop_blocked(s.store) {
            end_ok(s)
        } else {
            let k = paren_from(s.units, f.start as int);
            (
                RunView {
                    store: s.store,
                    units: s.units,
                    frames: s.frames.push(
                        Frame { start: (k + 1) as usize, pos: (k + 1) as usize, replace: true },
                    ),
                    pending: PendingView::Ready,
                },
                ActionView::Proceed,
            )
        },
        Command::Break => end_err(s, Fault::Break),
        Command::Number => (with_pending(s, PendingView::Number), ActionView::Parse(seq![u])),
    }
}

/// What a step does when the next unit is due: the interpretation ends when
/// its units are used up; else the unit is checked and executed.
pub open spec fn unit_step(s: RunView) -> (RunView, ActionView) {
    let f = top(s);
    if f.pos >= s.units.len() {
        end_ok(s)
    } else {
        let u = s.units[f.pos as int];
        match unit_check(u) {
            Err(e) => end_err(s, e),
            Ok(_) => command_step(s, command_of(u), u),
        }
    }
}

/// The text printed, if any.
pub open spec fn print_if_any(t: Seq<char>) -> ActionView {
    if t.len() > 0 {
        ActionView::Print(t)
    } else {
        ActionView::Proceed
    }
}

/// The machine's transition: the state after a step, and the action asked
/// for, from the state before and the event handed back.
pub open spec fn next(s: RunView, e: EventView) -> (RunView, ActionView) {
    match s.pending {
        PendingView::Ready => unit_step(s),
        PendingView::Finished => (s, ActionView::Done(Ok(()))),
        PendingView::Number => match e {
            EventView::Parsed(p) => match p[0] {
                Some(v) => (loaded(s, seq![v]), ActionView::Proceed),
                None => (advanced(s), ActionView::Proceed),
            },
            _ => (s, ActionView::Proceed),
        },
        PendingView::Input => match e {
            EventView::Input(Ok(t)) => (
                with_pending(s, PendingView::InputParse { text: t, chunks: chunks(t) }),
                ActionView::Parse(input_queries(chunks(t))),
            ),
            EventView::Input(Err(m)) => end_err(with_pending(s, PendingView::Ready), Fault::Input(m)),
            _ => (s, ActionView::Proceed),
        },
        PendingView::InputParse { text, chunks } => match e {
            EventView::Parsed(p) => (
                with_pending(s, PendingView::InputEncode { text, chunks, parsed: p }),
                ActionView::Encode(code_units(text)),
            ),
            _ => (s, ActionView::Proceed),
        },
        PendingView::InputEncode { text, chunks, parsed } => match e {
            EventView::Values(v) => (loaded(s, read_values(chunks, parsed, v)), ActionView::Proceed),
            _ => (s, ActionView::Proceed),
        },
        PendingView::Apply { first, second } => match e {
            EventView::Values(v) => (
                advanced(with_store(s, StoreView { stack: s.store.stack, buffer: arith_result(first, second, v) })),
                ActionView::Proceed,
            ),
            _ => (s, ActionView::Proceed),
        },
        PendingView::Compare { vector } => match e {
            EventView::Table(t) => (
                advanced(with_store(s, StoreView { stack: s.store.stack, buffer: unless_empty(kept(vector, t)) })),
                ActionView::Proceed,
            ),
            _ => (s, ActionView::Proceed),
        },
        PendingView::Round => match e {
            EventView::Values(v) => (
                advanced(with_store(s, StoreView { stack: s.store.stack, buffer: Some(v) })),
                ActionView::Proceed,
            ),
            _ => (s, ActionView::Proceed),
        },
        PendingView::Show => match e {
            EventView::Texts(t) => (advanced(s), print_if_any(pretty(t))),
            _ => (s, ActionView::Proceed),
        },
        PendingView::Codes => match e {
            EventView::Codes(c) => match convert(c) {
                Ok(t) => (
                    advanced(with_store(s, StoreView { stack: s.store.stack, buffer: None })),
                    print_if_any(t),
                ),
                Err(f) => end_err(with_pending(s, PendingView::Ready), f),
            },
            _ => (s, ActionView::Proceed),
        },
    }
}

/// The event is the one the machine waits for.
pub open spec fn fits(s: RunView, e: EventView) -> bool {
    match s.pending {
        PendingView::Ready => e is Resume,
        PendingView::Finished => false,
        PendingView::Number => e matches EventView::Parsed(p) && p.len() == 1,
        PendingView::Input => e matches EventView::Input(r) && (r matches Ok(t) ==> input_readable(t)),
        PendingView::InputParse { text, chunks } => e matches EventView::Parsed(p) && p.len() == 3
            * chunks.len(),
        PendingView::InputEncode { text, chunks, parsed } => e matches EventView::Values(v) && v.len()
            == text.len(),
        PendingView::Apply { first, second } => e matches EventView::Values(v) && v.len()
            == arith_pairs(first, second).len(),
        PendingView::Compare { vector } => e matches EventView::Table(t) && t.len() == vector.len(),
        PendingView::Round => e is Values,
        PendingView::Show => e is Texts,
        PendingView::Codes => e is Codes,
    }
}

/// Each running interpretation's position lies within the line, and each
/// one around a loop stands at a unit.
pub open spec fn frames_ok(s: RunView) -> bool {
    &&& s.units.len() <= usize::MAX
    &&& s.frames.len() >= 1
    &&& forall|i: int|
        0 <= i < s.frames.len() ==> #[trigger] s.frames[i].start <= s.frames[i].pos <= s.units.len()
    &&& forall|i: int| 0 <= i < s.frames.len() - 1 ==> #[trigger] s.frames[i].pos < s.units.len()
}

/// The machine's state is consistent: while a line runs, its interpretations
/// are in order (`frames_ok`), a unit in progress exists, and what is kept
/// of an input matches it.
pub open spec fn well_formed(s: RunView) -> bool {
    s.pending !is Finished ==> {
        &&& frames_ok(s)
        &&& s.pending !is Ready ==> top(s).pos < s.units.len()
        &&& s.pending matches PendingView::InputParse { text, chunks } ==> chunks == crate::input::chunks(text)
        &&& s.pending matches PendingView::InputEncode { text, chunks, parsed } ==> chunks
            == crate::input::chunks(text) && parsed.len() == 3 * chunks.len()
    }
}

/// The state in which the interpretation of a line starts.
pub open spec fn started(store: StoreView, line: Seq<char>) -> RunView {
    RunView {
        store: store,
        units: line_units(line),
        frames: seq![Frame { start: 0, pos: 0, replace: true }],
        pending: PendingView::Ready,
    }
}


/// `paren_from` moves past a unit that is not `(`.
proof fn lemma_paren_step(units: Seq<Seq<char>>, k: int)
    requires
        0 <= k < units.len(),
        units[k] != seq!['('],
    ensures
        paren_from(units, k) == paren_from(units, k + 1),
{
}

/// The first `(` from `k` on comes no later than a `(` at `p`.
proof fn lemma_paren_before(units: Seq<Seq<char>>, k: int, p: int)
    requires
        0 <= k <= p < units.len(),
        units[p] == seq!['('],
    ensures
        k <= paren_from(units, k) <= p,
        units[paren_from(units, k)] == seq!['('],
    decreases p - k,
{
    if units[k] != seq!['('] {
        lemma_paren_before(units, k + 1, p);
    }
}


proof fn lemma_advanced_ok(s: RunView)
    requires
        frames_ok(s),
        top(s).pos < s.units.len(),
    ensures
        frames_ok(advanced(s)),
        well_formed(advanced(s)),
{
    let t = advanced(s);
    let n = s.frames.len() - 1;
    assert forall|i: int| 0 <= i < t.frames.len() implies #[trigger] t.frames[i].start
        <= t.frames[i].pos <= t.units.len() by {
        if i != n {
            assert(t.frames[i] == s.frames[i]);
        }
    }
    assert forall|i: int| 0 <= i < t.frames.len() - 1 implies #[trigger] t.frames[i].pos
        < t.units.len() by {
        assert(t.frames[i] == s.frames[i]);
    }
}

proof fn lemma_loaded_ok(s: RunView, v: Seq<u64>)
    requires
        frames_ok(s),
        top(s).pos < s.units.len(),
    ensures
        well_formed(loaded(s, v)),
{
    let t = loaded(s, v);
    let n = s.frames.len() - 1;
    assert forall|i: int| 0 <= i < t.frames.len() implies #[trigger] t.frames[i].start
        <= t.frames[i].pos <= t.units.len() by {
        if i != n {
            assert(t.frames[i] == s.frames[i]);
        }
    }
    assert forall|i: int| 0 <= i < t.frames.len() - 1 implies #[trigger] t.frames[i].pos
        < t.units.len() by {
        assert(t.frames[i] == s.frames[i]);
    }
}

proof fn lemma_end_ok_ok(s: RunView)
    requires
        frames_ok(s),
    ensures
        well_formed(end_ok(s).0),
{
    if s.frames.len() > 1 {
        let t = end_ok(s).0;
        let n = s.frames.len() - 1;
        assert forall|i: int| 0 <= i < t.frames.len() implies #[trigger] t.frames[i].start
            <= t.frames[i].pos <= t.units.len() by {
            if i != n {
                assert(t.frames[i] == s.frames[i]);
            } else {
                assert(s.frames[n].start <= s.frames[n].pos);
            }
        }
        assert forall|i: int| 0 <= i < t.frames.len() - 1 implies #[trigger] t.frames[i].pos
            < t.units.len() by {
            assert(t.frames[i] == s.frames[i]);
        }
    }
}

proof fn lemma_end_err_ok(s: RunView, e: Fault)
    requires
        frames_ok(s),
    ensures
        well_formed(end_err(s, e).0),
{
    if s.frames.len() > 1 {
        let t = end_err(s, e).0;
        let n = s.frames.len() - 2;
        assert(t.frames.len() == n + 1);
        assert forall|i: int| 0 <= i < t.frames.len() implies #[trigger] t.frames[i].start
            <= t.frames[i].pos <= t.units.len() by {
            if i != n {
                assert(t.frames[i] == s.frames[i]);
            } else {
                assert(s.frames[n].pos < s.units.len());
                assert(s.frames[n].start <= s.frames[n].pos);
            }
        }
        assert forall|i: int| 0 <= i < t.frames.len() - 1 implies #[trigger] t.frames[i].pos
            < t.units.len() by {
            assert(t.frames[i] == s.frames[i]);
        }
    }
}

proof fn lemma_command_ok(s: RunView)
    requires
        well_formed(s),
        s.pending is Ready,
        top(s).pos < s.units.len(),
    ensures
        well_formed(
            command_step(s, command_of(s.units[top(s).pos as int]), s.units[top(s).pos as int]).0,
        ),
{
    let f = top(s);
    let u = s.units[f.pos as int];
    let c = command_of(u);
    match c {
        Command::Push => lemma_advanced_ok(with_store(s, push_step(s.store))),
        Command::Duplicate => lemma_advanced_ok(with_store(s, duplicate_step(s.store))),
        Command::Clear => lemma_advanced_ok(with_store(s, clear_step(s.store))),
        Command::Recall => lemma_advanced_ok(with_store(s, recall_step(s.store))),
        Command::Concat => lemma_advanced_ok(with_store(s, concat_step(s.store))),
        Command::Overlay => lemma_advanced_ok(with_store(s, overlay_step(s.store))),
        Command::Split => lemma_advanced_ok(with_store(s, split_step(s.store))),
        Command::Show => {
            let (out, st) = take_step(s.store);
            lemma_advanced_ok(with_store(s, StoreView { stack: st.stack, buffer: None }));
        },
        Command::Write => {
            let (out, st) = take_step(s.store);
            lemma_advanced_ok(with_store(s, st));
        },
        Command::SkipIf => {
            let (skip, st) = skip_step(s.store);
            lemma_advanced_ok(with_store(s, st));
            lemma_end_ok_ok(with_store(s, st));
        },
        Command::Filter(rel) => {
            let (p, v, rest) = filter_operands(s.store);
            lemma_advanced_ok(
                with_store(s, StoreView { stack: rest, buffer: unless_empty(filter_default(p)) }),
            );
        },
        Command::Round => {
            let (out, st) = take_step(s.store);
            lemma_advanced_ok(with_store(s, st));
        },
        Command::Loop => {
            lemma_end_ok_ok(s);
            if !loop_blocked(s.store) {
                assert(u == seq!['(']) by {
                    assert(u.len() == 1);
                    assert(u =~= seq!['(']);
                }
                lemma_paren_before(s.units, f.start as int, f.pos as int);
                let t = command_step(s, c, u).0;
                let n = s.frames.len();
                assert forall|i: int| 0 <= i < t.frames.len() implies #[trigger] t.frames[i].start
                    <= t.frames[i].pos <= t.units.len() by {
                    if i < n {
                        assert(t.frames[i] == s.frames[i]);
                    }
                }
                assert forall|i: int| 0 <= i < t.frames.len() - 1 implies #[trigger] t.frames[i].pos
                    < t.units.len() by {
                    assert(t.frames[i] == s.frames[i]);
                }
            }
        },
        Command::Break => lemma_end_err_ok(s, Fault::Break),
        _ => {},
    }
}

/// The machine stays consistent: from a consistent state, each step with
/// the event the machine waits for leads to a consistent state.
pub proof fn law_steps_stay_well_formed(s: RunView, e: EventView)
    requires
        well_formed(s),
        fits(s, e),
    ensures
        well_formed(next(s, e).0),
{
    match s.pending {
        PendingView::Ready => {
            let f = top(s);
            if f.pos >= s.units.len() {
                lemma_end_ok_ok(s);
            } else {
                let u = s.units[f.pos as int];
                match unit_check(u) {
                    Err(x) => lemma_end_err_ok(s, x),
                    Ok(_) => lemma_command_ok(s),
                }
            }
        },
        PendingView::Number => {
            lemma_advanced_ok(s);
            if let EventView::Parsed(p) = e {
                if let Some(v) = p[0] {
                    lemma_loaded_ok(s, seq![v]);
                }
            }
        },
        PendingView::Input => {
            lemma_end_err_ok(with_pending(s, PendingView::Ready), Fault::Input(seq![]));
            if let EventView::Input(Err(m)) = e {
                lemma_end_err_ok(with_pending(s, PendingView::Ready), Fault::Input(m));
            }
        },
        PendingView::InputEncode { text, chunks, parsed } => {
            if let EventView::Values(v) = e {
                lemma_loaded_ok(s, read_values(chunks, parsed, v));
            }
        },
        PendingView::Apply { first, second } => {
            if let EventView::Values(v) = e {
                lemma_advanced_ok(
                    with_store(s, StoreView { stack: s.store.stack, buffer: arith_result(first, second, v) }),
                );
            }
        },
        PendingView::Compare { vector } => {
            if let EventView::Table(t) = e {
                lemma_advanced_ok(
                    with_store(s, StoreView { stack: s.store.stack, buffer: unless_empty(kept(vector, t)) }),
                );
            }
        },
        PendingView::Round => {
            if let EventView::Values(v) = e {
                lemma_advanced_ok(with_store(s, StoreView { stack: s.store.stack, buffer: Some(v) }));
            }
        },
        PendingView::Show => {
            lemma_advanced_ok(s);
        },
        PendingView::Codes => {
            lemma_advanced_ok(with_store(s, StoreView { stack: s.store.stack, buffer: None }));
            if let EventView::Codes(c) = e {
                if let Err(x) = convert(c) {
                    lemma_end_err_ok(with_pending(s, PendingView::Ready), x);
                }
            }
        },
        _ => {},
    }
}


/// The unit that the next step would execute pushes onto the stack (`;` or
/// `:`).
pub open spec fn at_push(s: RunView) -> bool {
    &&& s.pending is Ready
    &&& top(s).pos < s.units.len()
    &&& (command_of(s.units[top(s).pos as int]) is Push || command_of(
        s.units[top(s).pos as int],
    ) is Duplicate)
}

/// All instructions that give a result put it in the buffer, never into the
/// stack: every step but those of `;` and `:` leaves the stack a prefix of
/// what it was (it only pops).
pub proof fn law_only_push_and_duplicate_grow_the_stack(s: RunView, e: EventView)
    requires
        well_formed(s),
        fits(s, e),
        !at_push(s),
    ensures
        is_prefix(next(s, e).0.store.stack, s.store.stack),
{
    crate::store::law_results_never_push(s.store);
    let n = s.store.stack.len() as int;
    assert(s.store.stack.take(n) =~= s.store.stack);
}


/// Each event, in its turn, is one the machine waits for (see `fits`).
pub open spec fn fits_run(s: RunView, es: Seq<EventView>) -> bool
    decreases es.len(),
{
    es.len() == 0 || (fits(s, es[0]) && fits_run(next(s, es[0]).0, es.drop_first()))
}

/// No unit is `;` or `:`.
pub open spec fn pushes_nothing(units: Seq<Seq<char>>) -> bool {
    forall|i: int|
        0 <= i < units.len() ==> !(command_of(#[trigger] units[i]) is Push) && !(command_of(
            units[i],
        ) is Duplicate)
}

/// A step never changes the units being run.
proof fn lemma_next_keeps_units(s: RunView, e: EventView)
    ensures
        next(s, e).0.units == s.units,
{
}

proof fn lemma_prefix_of_prefix(a: Seq<Seq<u64>>, b: Seq<Seq<u64>>, c: Seq<Seq<u64>>)
    requires
        is_prefix(a, b),
        is_prefix(b, c),
    ensures
        is_prefix(a, c),
{
    assert(c.take(b.len() as int).take(a.len() as int) =~= c.take(a.len() as int));
}

proof fn lemma_run_without_push(s: RunView, es: Seq<EventView>)
    requires
        well_formed(s),
        pushes_nothing(s.units),
        fits_run(s, es),
    ensures
        is_prefix(run_events(s, es).store.stack, s.store.stack),
    decreases es.len(),
{
    if es.len() == 0 {
        assert(s.store.stack.take(s.store.stack.len() as int) =~= s.store.stack);
    } else {
        let s1 = next(s, es[0]).0;
        law_only_push_and_duplicate_grow_the_stack(s, es[0]);
        law_steps_stay_well_formed(s, es[0]);
        lemma_next_keeps_units(s, es[0]);
        lemma_run_without_push(s1, es.drop_first());
        lemma_prefix_of_prefix(run_events(s1, es.drop_first()).store.stack, s1.store.stack, s.store.stack);
    }
}

/// Results go to the buffer, never into the stack: over a whole line with
/// no `;` and no `:`, whatever the outside work hands back at each step,
/// the stack at the end is what it was at the start, or a part of it from
/// the bottom (instructions only pop).
pub proof fn law_line_without_push_never_grows_the_stack(
    store: StoreView,
    line: Seq<char>,
    es: Seq<EventView>,
)
    requires
        line_units(line).len() <= usize::MAX,
        pushes_nothing(line_units(line)),
        fits_run(started(store, line), es),
    ensures
        is_prefix(run_events(started(store, line), es).store.stack, store.stack),
{
    let s = started(store, line);
    assert(well_formed(s));
    lemma_run_without_push(s, es);
}

/// The machine is about to execute the unit `u`.
pub open spec fn at_unit(s: RunView, u: Seq<char>) -> bool {
    &&& s.pending is Ready
    &&& top(s).pos < s.units.len()
    &&& s.units[top(s).pos as int] == u
}

/// There are two arrays to combine: the buffer and the top of the stack, or
/// without a buffer the two top arrays of the stack.
pub open spec fn two_operands(st: StoreView) -> bool {
    ||| st.buffer is Some && st.stack.len() > 0
    ||| st.buffer is None && st.stack.len() >= 2
}

/// The newer of the two arrays combined: the buffer, else the top of the
/// stack.
pub open spec fn newer_operand(st: StoreView) -> Seq<u64> {
    if st.buffer is Some {
        st.buffer.unwrap()
    } else {
        st.stack[st.stack.len() - 1]
    }
}

/// The older of the two arrays combined: the top of the stack when there is
/// a buffer, else the array below the top.
pub open spec fn older_operand(st: StoreView) -> Seq<u64> {
    if st.buffer is Some {
        st.stack[st.stack.len() - 1]
    } else {
        st.stack[st.stack.len() - 2]
    }
}

/// The stack left once the arrays combined are popped.
pub open spec fn stack_without_operands(st: StoreView) -> Seq<Seq<u64>> {
    if st.buffer is Some {
        st.stack.subrange(0, st.stack.len() - 1)
    } else {
        st.stack.subrange(0, st.stack.len() - 2)
    }
}

/// An arithmetic instruction applies its own operator to pairs whose left
/// element comes from the newer array (the buffer, else the top of the
/// stack) and whose right element comes from the older one (the popped top
/// of the stack, else the array below the top), both popped from the stack;
/// the results, followed by what the longer array has beyond the shorter,
/// become the buffer.
pub proof fn law_arith_applies_the_newer_to_the_older(s: RunView, op: char, values: Seq<u64>)
    requires
        well_formed(s),
        at_unit(s, seq![op]),
        op == '+' || op == '-' || op == '*' || op == '/' || op == '^' || op == '%',
        two_operands(s.store),
    ensures
        next(s, EventView::Resume).1 == ActionView::Apply(
            op,
            arith_pairs(Some(newer_operand(s.store)), Some(older_operand(s.store))),
        ),
        next(s, EventView::Resume).0.store.stack == stack_without_operands(s.store),
        values.len() == arith_pairs(Some(newer_operand(s.store)), Some(older_operand(s.store))).len()
            ==> next(next(s, EventView::Resume).0, EventView::Values(values)).0.store.buffer
            == arith_result(Some(newer_operand(s.store)), Some(older_operand(s.store)), values),
{
    crate::token::law_each_instruction_is_spelled_by_its_character(op);
    crate::store::law_arith_left_operand_is_the_newer_array(s.store);
}

/// A filter takes the newer array (the buffer, else the top of the stack)
/// as its pattern and the older one (the popped top of the stack, else the
/// array below the top) as the array filtered, and asks for the comparison
/// of its own relation; the elements kept (see `kept`) become the buffer,
/// or no buffer when none is kept.
pub proof fn law_filter_keeps_of_the_older_what_relates_to_the_newer(
    s: RunView,
    c: char,
    rel: Relation,
    table: Seq<Seq<bool>>,
)
    requires
        well_formed(s),
        at_unit(s, seq![c]),
        command_of(seq![c]) == Command::Filter(rel),
        two_operands(s.store),
    ensures
        next(s, EventView::Resume).1 == ActionView::Compare(
            rel,
            older_operand(s.store),
            newer_operand(s.store),
        ),
        next(s, EventView::Resume).0.store.stack == stack_without_operands(s.store),
        table.len() == older_operand(s.store).len() ==> next(
            next(s, EventView::Resume).0,
            EventView::Table(table),
        ).0.store.buffer == unless_empty(kept(older_operand(s.store), table)),
{
    crate::token::law_each_instruction_is_spelled_by_its_character(c);
    crate::store::law_filter_pattern_is_the_newer_array(s.store);
}

/// The array that `!` takes is not empty: the buffer, or without one the
/// top of the stack.
pub open spec fn takes_non_empty(st: StoreView) -> bool {
    ||| st.buffer is Some && st.buffer.unwrap().len() > 0
    ||| st.buffer is None && st.stack.len() > 0 && st.stack[st.stack.len() - 1].len() > 0
}

/// `!` ends the current interpretation exactly when the array it takes is
/// not empty: the line is done, or the loop starts over; otherwise the next
/// unit is due. Either way no buffer is left.
pub proof fn law_skip_ends_the_interpretation_on_a_non_empty_array(s: RunView)
    requires
        well_formed(s),
        at_unit(s, seq!['!']),
    ensures
        takes_non_empty(s.store) && s.frames.len() == 1 ==> next(s, EventView::Resume).1
            == ActionView::Done(Ok(())) && next(s, EventView::Resume).0.pending is Finished,
        takes_non_empty(s.store) && s.frames.len() > 1 ==> next(s, EventView::Resume).0.frames.len()
            == s.frames.len() && top(next(s, EventView::Resume).0).pos == top(s).start
            && next(s, EventView::Resume).0.pending is Ready,
        !takes_non_empty(s.store) ==> next(s, EventView::Resume).1 == ActionView::Proceed
            && next(s, EventView::Resume).0.frames.len() == s.frames.len() && top(
            next(s, EventView::Resume).0,
        ).pos == top(s).pos + 1 && next(s, EventView::Resume).0.pending is Ready,
        next(s, EventView::Resume).0.store.buffer is None,
{
    crate::token::law_each_instruction_is_spelled_by_its_character('!');
    crate::store::law_skip_exactly_on_a_non_empty_array(s.store);
}

/// `|` leaves in the buffer, alone, the last element of the array it takes
/// (the buffer, else the top of the stack, which is popped), and the next
/// unit is due.
pub proof fn law_split_leaves_the_last_element_alone(s: RunView)
    requires
        well_formed(s),
        at_unit(s, seq!['|']),
    ensures
        takes_non_empty(s.store) ==> next(s, EventView::Resume).0.store.buffer == Some(
            seq![newer_operand(s.store)[newer_operand(s.store).len() - 1]],
        ),
        s.store.buffer is None && s.store.stack.len() > 0 ==> next(s, EventView::Resume).0.store.stack
            == s.store.stack.subrange(0, s.store.stack.len() - 1),
        next(s, EventView::Resume).1 == ActionView::Proceed,
        top(next(s, EventView::Resume).0).pos == top(s).pos + 1,
{
    crate::token::law_each_instruction_is_spelled_by_its_character('|');
    crate::store::law_split_keeps_the_last_element(s.store);
    if s.store.stack.len() > 0 {
        assert(s.store.stack.drop_last() =~= s.store.stack.subrange(0, s.store.stack.len() - 1));
    }
}

/// The state after a sequence of steps, from the events handed back.
pub open spec fn run_events(s: RunView, es: Seq<EventView>) -> RunView
    decreases es.len(),
{
    if es.len() == 0 {
        s
    } else {
        run_events(next(s, es[0]).0, es.drop_first())
    }
}

/// The events with which a line of number units runs: for each unit a
/// resumption, then the number it reads as.
pub open spec fn number_events(vs: Seq<u64>) -> Seq<EventView>
    decreases vs.len(),
{
    if vs.len() == 0 {
        seq![]
    } else {
        seq![EventView::Resume, EventView::Parsed(seq![Some(vs[0])])] + number_events(vs.drop_first())
    }
}

/// A unit that is accepted and read as a number.
pub open spec fn is_number_unit(u: Seq<char>) -> bool {
    unit_check(u) is Ok && command_of(u) is Number
}

#[verifier::rlimit(30)]
proof fn lemma_number_run(s: RunView, vs: Seq<u64>, k: int)
    requires
        s.units.len() == vs.len(),
        s.units.len() <= usize::MAX,
        forall|i: int| 0 <= i < s.units.len() ==> is_number_unit(#[trigger] s.units[i]),
        0 <= k <= vs.len(),
        s.frames == seq![Frame { start: 0, pos: k as usize, replace: k == 0 }],
        s.pending is Ready,
        k > 0 ==> s.store.buffer == Some(vs.take(k)),
    ensures
        vs.len() > 0 ==> run_events(s, number_events(vs.skip(k))).store.buffer == Some(vs),
        run_events(s, number_events(vs.skip(k))).store.stack == s.store.stack,
        run_events(s, number_events(vs.skip(k))).frames == seq![
            Frame { start: 0, pos: vs.len() as usize, replace: vs.len() == 0 },
        ],
        run_events(s, number_events(vs.skip(k))).pending is Ready,
        run_events(s, number_events(vs.skip(k))).units == s.units,
    decreases vs.len() - k,
{
    if k == vs.len() {
        assert(vs.skip(k) =~= seq![]);
        assert(number_events(vs.skip(k)) =~= seq![]);
        if k > 0 {
            assert(vs.take(k) =~= vs);
        }
    } else {
        let rest = vs.skip(k);
        assert(rest.drop_first() =~= vs.skip(k + 1));
        let es = number_events(rest);
        assert(es == seq![EventView::Resume, EventView::Parsed(seq![Some(rest[0])])] + number_events(
            vs.skip(k + 1),
        ));
        let u = s.units[k];
        assert(is_number_unit(u));
        let s1 = next(s, es[0]).0;
        assert(top(s) == Frame { start: 0, pos: k as usize, replace: k == 0 });
        assert(s1 == with_pending(s, PendingView::Number));
        let s2 = next(s1, es[1]).0;
        assert(rest[0] == vs[k]);
        assert(s2 == loaded(s1, seq![vs[k]]));
        assert(s2.frames =~= seq![Frame { start: 0, pos: (k + 1) as usize, replace: false }]);
        if k > 0 {
            assert(vs.take(k) + seq![vs[k]] =~= vs.take(k + 1));
        } else {
            assert(seq![vs[0]] =~= vs.take(1));
        }
        assert(es.drop_first().drop_first() =~= number_events(vs.skip(k + 1)));
        assert(run_events(s, es) == run_events(s1, es.drop_first()));
        assert(es.drop_first()[0] == es[1]);
        assert(run_events(s1, es.drop_first()) == run_events(s2, es.drop_first().drop_first()));
        lemma_number_run(s2, vs, k + 1);
    }
}

/// Any sequence of numbers is an array that gets put in the buffer: running
/// a line of number units, each read as its number, leaves those numbers in
/// the buffer, in order, and the stack as it was; the next step ends the
/// line.
pub proof fn law_line_of_numbers_fills_buffer(store: StoreView, line: Seq<char>, vs: Seq<u64>)
    requires
        line_units(line).len() == vs.len(),
        vs.len() > 0,
        line_units(line).len() <= usize::MAX,
        forall|i: int| 0 <= i < line_units(line).len() ==> is_number_unit(#[trigger] line_units(line)[i]),
    ensures
        run_events(started(store, line), number_events(vs)).store.buffer == Some(vs),
        run_events(started(store, line), number_events(vs)).store.stack == store.stack,
        next(run_events(started(store, line), number_events(vs)), EventView::Resume).1
            == ActionView::Done(Ok(())),
{
    let s = started(store, line);
    assert(vs.skip(0) =~= vs);
    lemma_number_run(s, vs, 0);
    let t = run_events(s, number_events(vs));
    assert(t.units == s.units);
    assert(top(t).pos == vs.len());
    assert(t.frames.len() == 1);
}


/// `\` leaves only the innermost loop, silently, and the interpretation
/// around the loop goes on after its `(`; outside any loop it ends the
/// line with the error `break`.
pub proof fn law_break_leaves_the_innermost_loop(s: RunView)
    requires
        well_formed(s),
        s.pending is Ready,
        top(s).pos < s.units.len(),
        s.units[top(s).pos as int] == seq!['\\'],
    ensures
        s.frames.len() > 1 ==> next(s, EventView::Resume).1 == ActionView::Proceed && next(
            s,
            EventView::Resume,
        ).0.frames.len() == s.frames.len() - 1 && next(s, EventView::Resume).0.pending is Ready
            && top(next(s, EventView::Resume).0).pos == s.frames[s.frames.len() - 2].pos + 1,
        s.frames.len() == 1 ==> next(s, EventView::Resume).1 == ActionView::Done(
            Err(Fault::Break),
        ),
{
    let u = s.units[top(s).pos as int];
    assert(u.len() == 1 && u[0] == '\\');
    assert forall|i: int| 0 <= i < u.len() implies !crate::token::faulty_at(u, i) by {
        assert(i == 0);
    }
    assert(unit_check(u) is Ok);
    assert(command_of(u) is Break);
}

/// An error inside a loop ends only that loop: it is reported (unless it is
/// the one of `\`) and the interpretation around the loop goes on; outside
/// any loop it ends the line.
pub proof fn law_errors_end_the_innermost_interpretation(s: RunView, e: Fault)
    requires
        well_formed(s),
        s.pending !is Finished,
    ensures
        s.frames.len() > 1 ==> end_err(s, e).0.pending is Ready && end_err(s, e).0.frames.len()
            == s.frames.len() - 1 && end_err(s, e).1 == (if e is Break {
            ActionView::Proceed
        } else {
            ActionView::Report(e)
        }),
        s.frames.len() == 1 ==> end_err(s, e).0.pending is Finished && end_err(s, e).1
            == ActionView::Done(Err(e)),
{
}

fn is_open_paren(u: &Vec<char>) -> (r: bool)
    ensures
        r == (u@ == seq!['(']),
{
    if u.len() == 1 && u[0] == '(' {
        assert(u@ =~= seq!['(']);
        true
    } else {
        false
    }
}

fn nonempty_text(s: &String) -> (r: bool)
    ensures
        r == (s@.len() > 0),
{
    s.as_str().unicode_len() > 0
}

impl Interpreter {
    /// A session at its start: an empty stack, no buffer, no line.
    pub fn new() -> (r: Interpreter)
        ensures
            r@.store.stack.len() == 0,
            r@.store.buffer is None,
            r@.pending is Finished,
            well_formed(r@),
    {
        Interpreter {
            store: Store::new(),
            units: Vec::new(),
            frames: Vec::new(),
            pending: Pending::Finished,
        }
    }

    /// The session's data: its stack and its buffer.
    pub fn store(&self) -> (r: &Store)
        ensures
            r@ == self@.store,
    {
        &self.store
    }

    /// Empties the stack and the buffer (the `#reset` command); the rest of
    /// the session is left as it was.
    pub fn reset(&mut self)
        ensures
            final(self)@ == with_store(old(self)@, StoreView { stack: seq![], buffer: None }),
            well_formed(old(self)@) ==> well_formed(final(self)@),
    {
        self.store.reset();
        assert(self@.store.stack =~= seq![]);
    }

    /// Starts interpreting a line: its units are the words of its code part,
    /// and the first number loaded replaces the buffer.
    pub fn begin(&mut self, line: &str)
        ensures
            final(self)@ == started(old(self)@.store, line@),
            well_formed(final(self)@),
    {
        self.units = units_of(line);
        // A vector's length is a `usize`.
        assert(self.units@.len() == self.units.len());
        let mut frames: Vec<Frame> = Vec::new();
        frames.push(Frame { start: 0, pos: 0, replace: true });
        self.frames = frames;
        self.pending = Pending::Ready;
        assert(self@.frames =~= seq![Frame { start: 0, pos: 0, replace: true }]);
    }

    /// Whether the current line is done.
    pub fn finished(&self) -> (r: bool)
        ensures
            r == (self@.pending is Finished),
    {
        match self.pending {
            Pending::Finished => true,
            _ => false,
        }
    }

    /// Whether `event` is what the machine waits for (see `fits`).
    pub fn accepts(&self, event: &Event) -> (r: bool)
        ensures
            r == fits(self@, event@),
    {
        match &self.pending {
            Pending::Ready => match event {
                Event::Resume => true,
                _ => false,
            },
            Pending::Finished => false,
            Pending::Number => match event {
                Event::Parsed(p) => p.len() == 1,
                _ => false,
            },
            Pending::Input => match event {
                Event::Input(Ok(t)) => crate::input::readable(t.as_str()),
                Event::Input(Err(_)) => true,
                _ => false,
            },
            Pending::InputParse { text, chunks } => match event {
                Event::Parsed(p) => {
                    assert(texts(chunks@).len() == chunks@.len());
                    let pl = p.len();
                    let cl = chunks.len();
                    cl <= usize::MAX / 3 && pl == 3 * cl
                },
                _ => false,
            },
            Pending::InputEncode { text, chunks, parsed } => match event {
                Event::Values(v) => v.len() == text.len(),
                _ => false,
            },
            Pending::Apply { first, second } => match event {
                Event::Values(v) => v.len() == vecop_pairs(first, second).len(),
                _ => false,
            },
            Pending::Compare { vector } => match event {
                Event::Table(t) => t.len() == vector.len(),
                _ => false,
            },
            Pending::Round => match event {
                Event::Values(_) => true,
                _ => false,
            },
            Pending::Show => match event {
                Event::Texts(_) => true,
                _ => false,
            },
            Pending::Codes => match event {
                Event::Codes(_) => true,
                _ => false,
            },
        }
    }

    fn advance(&mut self)
        requires
            old(self)@.frames.len() > 0,
            top(old(self)@).pos < old(self)@.units.len(),
            old(self)@.units.len() <= usize::MAX,
        ensures
            final(self)@ == advanced(old(self)@),
    {
        let n = self.frames.len();
        let f = self.frames[n - 1];
        self.frames[n - 1] = Frame { start: f.start, pos: f.pos + 1, replace: f.replace };
        self.pending = Pending::Ready;
    }

    fn load_advance(&mut self, values: Vec<u64>)
        requires
            old(self)@.frames.len() > 0,
            top(old(self)@).pos < old(self)@.units.len(),
            old(self)@.units.len() <= usize::MAX,
        ensures
            final(self)@ == loaded(old(self)@, values@),
    {
        let n = self.frames.len();
        let f = self.frames[n - 1];
        self.store.load(values, f.replace);
        self.frames[n - 1] = Frame { start: f.start, pos: f.pos + 1, replace: false };
        self.pending = Pending::Ready;
    }

    fn finish_ok(&mut self) -> (a: Action)
        requires
            old(self)@.frames.len() > 0,
        ensures
            (final(self)@, a@) == end_ok(old(self)@),
    {
        let n = self.frames.len();
        if n <= 1 {
            self.pending = Pending::Finished;
            Action::Done(Ok(()))
        } else {
            let f = self.frames[n - 1];
            self.frames[n - 1] = Frame { start: f.start, pos: f.start, replace: true };
            self.pending = Pending::Ready;
            Action::Proceed
        }
    }

    fn finish_err(&mut self, e: FarError) -> (a: Action)
        requires
            old(self)@.frames.len() > 0,
            old(self)@.frames.len() > 1 ==> old(self)@.frames[old(self)@.frames.len() - 2].pos
                < old(self)@.units.len(),
            old(self)@.units.len() <= usize::MAX,
        ensures
            (final(self)@, a@) == end_err(old(self)@, e@),
    {
        let n = self.frames.len();
        if n <= 1 {
            self.pending = Pending::Finished;
            Action::Done(Err(e))
        } else {
            let ghost rest = self@.frames.drop_last();
            self.frames.pop();
            assert(self.frames@ =~= rest);
            let p = self.frames[n - 2];
            self.frames[n - 2] = Frame { start: p.start, pos: p.pos + 1, replace: p.replace };
            self.pending = Pending::Ready;
            if e.is_break() {
                Action::Proceed
            } else {
                Action::Report(e)
            }
        }
    }

    fn run_command(&mut self, c: Command) -> (a: Action)
        requires
            well_formed(old(self)@),
            old(self)@.pending is Ready,
            top(old(self)@).pos < old(self)@.units.len(),
            c == command_of(old(self)@.units[top(old(self)@).pos as int]),
        ensures
            (final(self)@, a@) == command_step(
                old(self)@,
                c,
                old(self)@.units[top(old(self)@).pos as int],
            ),
    {
        let ghost s = self@;
        let n = self.frames.len();
        let f = self.frames[n - 1];
        match c {
            Command::Push => {
                self.store.push();
                self.advance();
                Action::Proceed
            },
            Command::Duplicate => {
                self.store.duplicate();
                self.advance();
                Action::Proceed
            },
            Command::Clear => {
                self.store.clear();
                self.advance();
                Action::Proceed
            },
            Command::Recall => {
                self.store.recall();
                self.advance();
                Action::Proceed
            },
            Command::Concat => {
                self.store.concat();
                self.advance();
                Action::Proceed
            },
            Command::Overlay => {
                self.store.overlay();
                self.advance();
                Action::Proceed
            },
            Command::Split => {
                self.store.split();
                self.advance();
                Action::Proceed
            },
            Command::Show => {
                let out = self.store.take();
                self.store.set_buffer(None);
                match out {
                    Some(v) => {
                        self.pending = Pending::Show;
                        Action::Show(v)
                    },
                    None => {
                        self.advance();
                        Action::Proceed
                    },
                }
            },
            Command::Write => {
                let out = self.store.take();
                match out {
                    Some(v) => {
                        self.pending = Pending::Codes;
                        Action::Codes(v)
                    },
                    None => {
                        self.advance();
                        Action::Proceed
                    },
                }
            },
            Command::Read => {
                self.pending = Pending::Input;
                Action::ReadInput
            },
            Command::Conditional => {
                self.pending = Pending::Finished;
                Action::Unimplemented
            },
            Command::SkipIf => {
                let skip = self.store.skip_test();
                if skip {
                    self.finish_ok()
                } else {
                    self.advance();
                    Action::Proceed
                }
            },
            Command::Arith(op) => {
                let (a, b) = self.store.take_arith();
                let pairs = vecop_pairs(&a, &b);
                self.pending = Pending::Apply { first: a, second: b };
                Action::Apply(op, pairs)
            },
            Command::Filter(rel) => {
                let (p, v) = self.store.take_filter();
                match v {
                    Some(vec) => {
                        let pat = match p {
                            Some(x) => x,
                            None => Vec::new(),
                        };
                        let shown = copy_of(&vec);
                        self.pending = Pending::Compare { vector: vec };
                        Action::Compare(rel, shown, pat)
                    },
                    None => {
                        let r = match p {
                            Some(x) => x,
                            None => Vec::new(),
                        };
                        if r.len() > 0 {
                            self.store.set_buffer(Some(r));
                        } else {
                            self.store.set_buffer(None);
                        }
                        self.advance();
                        Action::Proceed
                    },
                }
            },
            Command::Round => {
                let out = self.store.take();
                match out {
                    Some(v) => {
                        self.pending = Pending::Round;
                        Action::Round(v)
                    },
                    None => {
                        self.advance();
                        Action::Proceed
                    },
                }
            },
            Command::Loop => {
                if self.store.blocked() {
                    self.finish_ok()
                } else {
                    let mut k = f.start;
                    proof {
                        assert(self@.units[f.pos as int] == seq!['(']);
                        lemma_paren_before(self@.units, f.start as int, f.pos as int);
                    }
                    while k < f.pos && !is_open_paren(&self.units[k])
                        invariant
                            f.start <= k <= f.pos < self@.units.len(),
                            self@.units[f.pos as int] == seq!['('],
                            paren_from(self@.units, f.start as int) == paren_from(self@.units, k as int),
                            self@ == s,
                        decreases f.pos - k,
                    {
                        proof {
                            lemma_paren_step(self@.units, k as int);
                        }
                        k = k + 1;
                    }
                    self.frames.push(Frame { start: k + 1, pos: k + 1, replace: true });
                    Action::Proceed
                }
            },
            Command::Break => self.finish_err(FarError::Break),
            Command::Number => {
                let t = string_of(self.units[f.pos].as_slice());
                self.pending = Pending::Number;
                let v = vec![t];
                assert(string_texts(v@) =~= seq![s.units[f.pos as int]]);
                Action::Parse(v)
            },
        }
    }

    fn run_unit(&mut self) -> (a: Action)
        requires
            well_formed(old(self)@),
            old(self)@.pending is Ready,
        ensures
            (final(self)@, a@) == unit_step(old(self)@),
    {
        let n = self.frames.len();
        let f = self.frames[n - 1];
        if f.pos >= self.units.len() {
            return self.finish_ok();
        }
        let chk = check_unit(&self.units[f.pos]);
        match chk {
            Err(e) => self.finish_err(e),
            Ok(()) => {
                let c = command(&self.units[f.pos]);
                self.run_command(c)
            },
        }
    }

    /// One step of the machine: with the event the machine waits for, it
    /// does what `next` says and asks for the action that `next` names.
    pub fn step(&mut self, event: Event) -> (a: Action)
        requires
            well_formed(old(self)@),
            fits(old(self)@, event@),
        ensures
            (final(self)@, a@) == next(old(self)@, event@),
            well_formed(final(self)@),
    {
        let ghost s = self@;
        proof {
            law_steps_stay_well_formed(s, event@);
        }
        let mut p = Pending::Ready;
        std::mem::swap(&mut self.pending, &mut p);
        assert(self@ == with_pending(s, PendingView::Ready));
        match p {
            Pending::Ready => self.run_unit(),
            Pending::Finished => vstd::pervasive::unreached(),
            Pending::Number => match event {
                Event::Parsed(v) => match v[0] {
                    Some(x) => {
                        let mut vals: Vec<u64> = Vec::new();
                        vals.push(x);
                        assert(vals@ =~= seq![x]);
                        self.load_advance(vals);
                        Action::Proceed
                    },
                    None => {
                        self.advance();
                        Action::Proceed
                    },
                },
                _ => vstd::pervasive::unreached(),
            },
            Pending::Input => match event {
                Event::Input(Ok(t)) => {
                    let text = chars_of(t.as_str());
                    let ch = split_chunks(text.as_slice());
                    let qs = queries_of(&ch);
                    self.pending = Pending::InputParse { text, chunks: ch };
                    Action::Parse(qs)
                },
                Event::Input(Err(m)) => self.finish_err(FarError::Input(m)),
                _ => vstd::pervasive::unreached(),
            },
            Pending::InputParse { text, chunks } => match event {
                Event::Parsed(v) => {
                    let codes = units_of_chars(text.as_slice());
                    self.pending = Pending::InputEncode { text, chunks, parsed: v };
                    Action::Encode(codes)
                },
                _ => vstd::pervasive::unreached(),
            },
            Pending::InputEncode { text, chunks, parsed } => match event {
                Event::Values(v) => {
                    proof {
                        law_chunks_cover(text@);
                        crate::input::lemma_total_len_flatten(texts(chunks@));
                    }
                    let vals = values_of(&chunks, &parsed, &v);
                    self.load_advance(vals);
                    Action::Proceed
                },
                _ => vstd::pervasive::unreached(),
            },
            Pending::Apply { first, second } => match event {
                Event::Values(v) => {
                    let r = vecop(first, second, v);
                    self.store.set_buffer(r);
                    self.advance();
                    Action::Proceed
                },
                _ => vstd::pervasive::unreached(),
            },
            Pending::Compare { vector } => match event {
                Event::Table(t) => {
                    let r = filter(&vector, &t);
                    if r.len() > 0 {
                        self.store.set_buffer(Some(r));
                    } else {
                        self.store.set_buffer(None);
                    }
                    self.advance();
                    Action::Proceed
                },
                _ => vstd::pervasive::unreached(),
            },
            Pending::Round => match event {
                Event::Values(v) => {
                    self.store.set_buffer(Some(v));
                    self.advance();
                    Action::Proceed
                },
                _ => vstd::pervasive::unreached(),
            },
            Pending::Show => match event {
                Event::Texts(t) => {
                    let text = prettyformat(t);
                    self.advance();
                    if nonempty_text(&text) {
                        Action::Print(text)
                    } else {
                        Action::Proceed
                    }
                },
                _ => vstd::pervasive::unreached(),
            },
            Pending::Codes => match event {
                Event::Codes(c) => match tryconvert(c) {
                    Ok(t) => {
                        self.store.set_buffer(None);
                        self.advance();
                        if nonempty_text(&t) {
                            Action::Print(t)
                        } else {
                            Action::Proceed
                        }
                    },
                    Err(e) => self.finish_err(e),
                },
                _ => vstd::pervasive::unreached(),
            },
        }
    }
}

} // verus!
