//! The data of a FAR session: a stack of arrays and an optional buffer, and
//! what each instruction does to them. An array is a vector of IEEE-754
//! doubles, each held as its bit pattern.
use vstd::prelude::*;
use crate::vector::{arith_result, kept, opt_view};

verus! {

/// The arrays held by a vector of arrays.
pub open spec fn arrays(v: Seq<Vec<u64>>) -> Seq<Seq<u64>> {
    v.map_values(|a: Vec<u64>| a@)
}

/// The stack (last element on top) and the buffer.
pub struct Store {
    pub stack: Vec<Vec<u64>>,
    pub buffer: Option<Vec<u64>>,
}

/// The mathematical value of a `Store`.
pub struct StoreView {
    pub stack: Seq<Seq<u64>>,
    pub buffer: Option<Seq<u64>>,
}

impl View for Store {
    type V = StoreView;

    open spec fn view(&self) -> StoreView {
        StoreView { stack: arrays(self.stack@), buffer: opt_view(self.buffer) }
    }
}

/// An empty array when there is none.
pub open spec fn or_empty(v: Option<Seq<u64>>) -> Seq<u64> {
    match v {
        Some(a) => a,
        None => seq![],
    }
}

/// The array as a buffer: kept when it is not empty, else no buffer.
pub open spec fn unless_empty(v: Seq<u64>) -> Option<Seq<u64>> {
    if v.len() > 0 {
        Some(v)
    } else {
        None
    }
}

/// `;`: the buffer (or an empty array) goes onto the stack; the buffer is
/// emptied.
pub open spec fn push_step(s: StoreView) -> StoreView {
    StoreView { stack: s.stack.push(or_empty(s.buffer)), buffer: None }
}

/// `:`: a copy of the top of the stack goes onto the stack.
pub open spec fn duplicate_step(s: StoreView) -> StoreView {
    if s.stack.len() > 0 {
        StoreView { stack: s.stack.push(s.stack.last()), buffer: s.buffer }
    } else {
        s
    }
}

/// `~`: the stack is emptied.
pub open spec fn clear_step(s: StoreView) -> StoreView {
    StoreView { stack: seq![], buffer: s.buffer }
}

/// `@`: the top of the stack is popped into the buffer (no buffer when the
/// stack is empty).
pub open spec fn recall_step(s: StoreView) -> StoreView {
    if s.stack.len() > 0 {
        StoreView { stack: s.stack.drop_last(), buffer: Some(s.stack.last()) }
    } else {
        StoreView { stack: s.stack, buffer: None }
    }
}

/// The array that an instruction works on: the buffer if there is one, else
/// the top of the stack, which is popped.
pub open spec fn take_step(s: StoreView) -> (Option<Seq<u64>>, StoreView) {
    match s.buffer {
        Some(c) => (Some(c), s),
        None => if s.stack.len() > 0 {
            (Some(s.stack.last()), StoreView { stack: s.stack.drop_last(), buffer: None })
        } else {
            (None, s)
        },
    }
}

/// `!`: whether the rest of the line is skipped (the array taken is not
/// empty); the buffer is emptied, or the stack popped.
pub open spec fn skip_step(s: StoreView) -> (bool, StoreView) {
    match s.buffer {
        Some(c) => (c.len() > 0, StoreView { stack: s.stack, buffer: None }),
        None => if s.stack.len() > 0 {
            (s.stack.last().len() > 0, StoreView { stack: s.stack.drop_last(), buffer: None })
        } else {
            (false, s)
        },
    }
}

/// The operands of an arithmetic instruction: the buffer and the popped top
/// of the stack, or without a buffer the two top arrays of the stack (top
/// first); and the stack that remains.
pub open spec fn arith_operands(s: StoreView) -> (Option<Seq<u64>>, Option<Seq<u64>>, Seq<Seq<u64>>) {
    match s.buffer {
        Some(c) => if s.stack.len() > 0 {
            (Some(c), Some(s.stack.last()), s.stack.drop_last())
        } else {
            (Some(c), None, s.stack)
        },
        None => if s.stack.len() >= 2 {
            (Some(s.stack.last()), Some(s.stack[s.stack.len() - 2]), s.stack.take(s.stack.len() - 2))
        } else if s.stack.len() == 1 {
            (Some(s.stack.last()), None, seq![])
        } else {
            (None, None, s.stack)
        },
    }
}

/// `_`: the buffer is appended to the popped top of the stack; without a
/// buffer, the top of the stack is appended to the array below it (or
/// becomes the buffer when it is alone).
pub open spec fn concat_step(s: StoreView) -> StoreView {
    match s.buffer {
        Some(c) => if s.stack.len() > 0 {
            StoreView { stack: s.stack.drop_last(), buffer: Some(s.stack.last() + c) }
        } else {
            s
        },
        None => if s.stack.len() >= 2 {
            StoreView {
                stack: s.stack.take(s.stack.len() - 2),
                buffer: Some(s.stack[s.stack.len() - 2] + s.stack.last()),
            }
        } else if s.stack.len() == 1 {
            StoreView { stack: seq![], buffer: Some(s.stack.last()) }
        } else {
            s
        },
    }
}

/// `newer` laid over `older`: `newer`, followed by the elements of `older`
/// beyond its length.
pub open spec fn overlaid(newer: Seq<u64>, older: Seq<u64>) -> Seq<u64> {
    if newer.len() < older.len() {
        newer + older.skip(newer.len() as int)
    } else {
        newer
    }
}

/// `#`: the buffer is laid over the popped top of the stack; without a
/// buffer, both top arrays are popped and the top one laid over the one
/// below it becomes the buffer (a lone array is popped and dropped).
pub open spec fn overlay_step(s: StoreView) -> StoreView {
    match s.buffer {
        Some(c) => if s.stack.len() > 0 {
            StoreView { stack: s.stack.drop_last(), buffer: Some(overlaid(c, s.stack.last())) }
        } else {
            s
        },
        None => if s.stack.len() >= 2 {
            let first = s.stack.last();
            let second = s.stack[s.stack.len() - 2];
            StoreView {
                stack: s.stack.take(s.stack.len() - 2),
                buffer: Some(overlaid(first, second)),
            }
        } else if s.stack.len() == 1 {
            StoreView { stack: seq![], buffer: None }
        } else {
            s
        },
    }
}

/// `|`: the buffer becomes its last element alone; without a buffer the top
/// of the stack is popped and its last element alone becomes the buffer.
pub open spec fn split_step(s: StoreView) -> StoreView {
    match s.buffer {
        Some(c) => if c.len() > 0 {
            StoreView { stack: s.stack, buffer: Some(seq![c.last()]) }
        } else {
            s
        },
        None => if s.stack.len() > 0 {
            let c = s.stack.last();
            StoreView {
                stack: s.stack.drop_last(),
                buffer: if c.len() > 0 {
                    Some(seq![c.last()])
                } else {
                    None
                },
            }
        } else {
            s
        },
    }
}

/// The operands of a filter: the pattern (the buffer, or the popped top of
/// the stack), the array filtered (popped from the stack), and the stack
/// that remains.
pub open spec fn filter_operands(s: StoreView) -> (Option<Seq<u64>>, Option<Seq<u64>>, Seq<Seq<u64>>) {
    match s.buffer {
        Some(p) => if s.stack.len() > 0 {
            (Some(p), Some(s.stack.last()), s.stack.drop_last())
        } else {
            (Some(p), None, s.stack)
        },
        None => if s.stack.len() >= 2 {
            (Some(s.stack.last()), Some(s.stack[s.stack.len() - 2]), s.stack.take(s.stack.len() - 2))
        } else if s.stack.len() == 1 {
            (Some(s.stack.last()), None, seq![])
        } else {
            (None, None, s.stack)
        },
    }
}

/// The result of a filter without a comparison to make: the pattern alone,
/// or nothing.
pub open spec fn filter_default(pattern: Option<Seq<u64>>) -> Seq<u64> {
    or_empty(pattern)
}

/// A number is loaded: it starts a new buffer when the buffer is to be
/// replaced (the first load of a line) or absent, else it is appended.
pub open spec fn load_step(s: StoreView, values: Seq<u64>, replace: bool) -> StoreView {
    StoreView {
        stack: s.stack,
        buffer: match s.buffer {
            Some(c) => if replace {
                Some(values)
            } else {
                Some(c + values)
            },
            None => Some(values),
        },
    }
}

/// `(`: a loop does not start when there is no buffer and the stack is empty.
pub open spec fn loop_blocked(s: StoreView) -> bool {
    s.buffer is None && s.stack.len() == 0
}

/// A copy of an array.
pub fn copy_of(v: &Vec<u64>) -> (r: Vec<u64>)
    ensures
        r@ == v@,
{
    let mut r: Vec<u64> = Vec::new();
    let n = v.len();
    for i in 0..n
        invariant
            n == v@.len(),
            r@ == v@.take(i as int),
    {
        r.push(v[i]);
        assert(v@.take(i + 1) =~= v@.take(i as int).push(v@[i as int]));
    }
    assert(v@.take(n as int) =~= v@);
    r
}

/// `a` followed by `b`.
pub fn joined_arrays(a: &Vec<u64>, b: &Vec<u64>) -> (r: Vec<u64>)
    ensures
        r@ == a@ + b@,
{
    let mut r = copy_of(a);
    let n = b.len();
    for i in 0..n
        invariant
            n == b@.len(),
            r@ == a@ + b@.take(i as int),
    {
        r.push(b[i]);
        assert(b@.take(i + 1) =~= b@.take(i as int).push(b@[i as int]));
        assert(r@ =~= a@ + b@.take(i + 1));
    }
    assert(b@.take(n as int) =~= b@);
    r
}

/// `newer` laid over `older` (see `overlaid`).
pub fn overlay_arrays(newer: &Vec<u64>, older: &Vec<u64>) -> (r: Vec<u64>)
    ensures
        r@ == overlaid(newer@, older@),
{
    let k = newer.len();
    if k < older.len() {
        let mut r = copy_of(newer);
        let n = older.len();
        for i in k..n
            invariant
                n == older@.len(),
                k == newer@.len(),
                k <= n,
                r@ == newer@ + older@.subrange(k as int, i as int),
        {
            r.push(older[i]);
            assert(older@.subrange(k as int, i + 1) =~= older@.subrange(k as int, i as int).push(
                older@[i as int],
            ));
            assert(r@ =~= newer@ + older@.subrange(k as int, i + 1));
        }
        assert(older@.subrange(k as int, n as int) =~= older@.skip(k as int));
        r
    } else {
        copy_of(newer)
    }
}

impl Store {
    /// A session's data at the start: an empty stack and no buffer.
    pub fn new() -> (r: Store)
        ensures
            r@.stack.len() == 0,
            r@.buffer is None,
    {
        let r = Store { stack: Vec::new(), buffer: None };
        assert(r@.stack =~= seq![]);
        r
    }

    /// Empties the stack and the buffer (the `#reset` command).
    pub fn reset(&mut self)
        ensures
            final(self)@.stack.len() == 0,
            final(self)@.buffer is None,
    {
        self.stack = Vec::new();
        self.buffer = None;
        assert(self@.stack =~= seq![]);
    }

    fn pop_top(&mut self) -> (r: Option<Vec<u64>>)
        ensures
            old(self)@.stack.len() > 0 ==> final(self)@.stack == old(self)@.stack.drop_last() && r
                is Some && r->0@ == old(self)@.stack.last(),
            old(self)@.stack.len() == 0 ==> final(self)@.stack == old(self)@.stack && r is None,
            final(self).buffer == old(self).buffer,
    {
        let ghost pre = self@.stack;
        let r = self.stack.pop();
        if r.is_some() {
            assert(arrays(self.stack@) =~= pre.drop_last());
        }
        r
    }

    fn push_top(&mut self, v: Vec<u64>)
        ensures
            final(self)@.stack == old(self)@.stack.push(v@),
            final(self).buffer == old(self).buffer,
    {
        let ghost pre = self@.stack;
        self.stack.push(v);
        assert(arrays(self.stack@) =~= pre.push(v@));
    }

    /// `;` (see `push_step`).
    pub fn push(&mut self)
        ensures
            final(self)@ == push_step(old(self)@),
    {
        let b = self.buffer.take();
        match b {
            Some(c) => self.push_top(c),
            None => self.push_top(Vec::new()),
        }
    }

    /// `:` (see `duplicate_step`).
    pub fn duplicate(&mut self)
        ensures
            final(self)@ == duplicate_step(old(self)@),
    {
        let n = self.stack.len();
        if n > 0 {
            let c = copy_of(&self.stack[n - 1]);
            self.push_top(c);
        }
    }

    /// `~` (see `clear_step`).
    pub fn clear(&mut self)
        ensures
            final(self)@ == clear_step(old(self)@),
    {
        self.stack = Vec::new();
        assert(self@.stack =~= seq![]);
    }

    /// `@` (see `recall_step`).
    pub fn recall(&mut self)
        ensures
            final(self)@ == recall_step(old(self)@),
    {
        let t = self.pop_top();
        self.buffer = t;
    }

    /// Takes the array an output instruction works on (see `take_step`).
    pub fn take(&mut self) -> (r: Option<Vec<u64>>)
        ensures
            (opt_view(r), final(self)@) == take_step(old(self)@),
    {
        match &self.buffer {
            Some(c) => Some(copy_of(c)),
            None => self.pop_top(),
        }
    }

    /// `!` (see `skip_step`).
    pub fn skip_test(&mut self) -> (r: bool)
        ensures
            (r, final(self)@) == skip_step(old(self)@),
    {
        let b = self.buffer.take();
        match b {
            Some(c) => c.len() > 0,
            None => {
                let t = self.pop_top();
                match t {
                    Some(c) => c.len() > 0,
                    None => false,
                }
            },
        }
    }

    /// Takes the operands of an arithmetic instruction (see
    /// `arith_operands`); the buffer is left for the result.
    pub fn take_arith(&mut self) -> (r: (Option<Vec<u64>>, Option<Vec<u64>>))
        ensures
            (opt_view(r.0), opt_view(r.1), final(self)@.stack) == arith_operands(old(self)@),
            final(self).buffer == old(self).buffer,
    {
        match &self.buffer {
            Some(c) => {
                let first = copy_of(c);
                let second = self.pop_top();
                (Some(first), second)
            },
            None => {
                let ghost pre = self@.stack;
                let first = self.pop_top();
                let second = self.pop_top();
                proof {
                    if pre.len() >= 2 {
                        assert(pre.drop_last().drop_last() =~= pre.take(pre.len() - 2));
                        assert(pre.drop_last().last() == pre[pre.len() - 2]);
                    }
                    if pre.len() == 1 {
                        assert(pre.drop_last() =~= seq![]);
                    }
                }
                (first, second)
            },
        }
    }

    /// Stores a result in the buffer.
    pub fn set_buffer(&mut self, v: Option<Vec<u64>>)
        ensures
            final(self)@ == (StoreView { stack: old(self)@.stack, buffer: opt_view(v) }),
    {
        self.buffer = v;
    }

    /// `_` (see `concat_step`).
    pub fn concat(&mut self)
        ensures
            final(self)@ == concat_step(old(self)@),
    {
        let ghost pre = self@;
        match &self.buffer {
            Some(_) => {
                if self.stack.len() > 0 {
                    let second = self.pop_top();
                    match (second, &self.buffer) {
                        (Some(s), Some(c)) => {
                            let r = joined_arrays(&s, c);
                            self.buffer = Some(r);
                        },
                        _ => {},
                    }
                }
            },
            None => {
                let first = self.pop_top();
                match first {
                    Some(f) => {
                        let second = self.pop_top();
                        match second {
                            Some(s) => {
                                self.buffer = Some(joined_arrays(&s, &f));
                            },
                            None => {
                                self.buffer = Some(f);
                            },
                        }
                    },
                    None => {},
                }
                proof {
                    if pre.stack.len() >= 2 {
                        assert(pre.stack.drop_last().drop_last() =~= pre.stack.take(
                            pre.stack.len() - 2,
                        ));
                        assert(pre.stack.drop_last().last() == pre.stack[pre.stack.len() - 2]);
                    }
                    if pre.stack.len() == 1 {
                        assert(pre.stack.drop_last() =~= seq![]);
                    }
                }
            },
        }
    }

    /// `#` (see `overlay_step`).
    pub fn overlay(&mut self)
        ensures
            final(self)@ == overlay_step(old(self)@),
    {
        let ghost pre = self@;
        match &self.buffer {
            Some(_) => {
                if self.stack.len() > 0 {
                    let second = self.pop_top();
                    match (second, &self.buffer) {
                        (Some(s), Some(c)) => {
                            let r = overlay_arrays(c, &s);
                            self.buffer = Some(r);
                        },
                        _ => {},
                    }
                }
            },
            None => {
                let first = self.pop_top();
                match first {
                    Some(f) => {
                        let second = self.pop_top();
                        match second {
                            Some(s) => {
                                self.buffer = Some(overlay_arrays(&f, &s));
                            },
                            None => {},
                        }
                    },
                    None => {},
                }
                proof {
                    if pre.stack.len() >= 2 {
                        assert(pre.stack.drop_last().drop_last() =~= pre.stack.take(
                            pre.stack.len() - 2,
                        ));
                        assert(pre.stack.drop_last().last() == pre.stack[pre.stack.len() - 2]);
                    }
                    if pre.stack.len() == 1 {
                        assert(pre.stack.drop_last() =~= seq![]);
                    }
                }
            },
        }
    }

    /// `|` (see `split_step`).
    pub fn split(&mut self)
        ensures
            final(self)@ == split_step(old(self)@),
    {
        match &self.buffer {
            Some(c) => {
                let n = c.len();
                if n > 0 {
                    let mut v: Vec<u64> = Vec::new();
                    v.push(c[n - 1]);
                    assert(v@ =~= seq![c@.last()]);
                    self.buffer = Some(v);
                }
            },
            None => {
                let t = self.pop_top();
                match t {
                    Some(c) => {
                        let n = c.len();
                        if n > 0 {
                            let mut v: Vec<u64> = Vec::new();
                            v.push(c[n - 1]);
                            assert(v@ =~= seq![c@.last()]);
                            self.buffer = Some(v);
                        }
                    },
                    None => {},
                }
            },
        }
    }

    /// Takes the operands of a filter (see `filter_operands`); the buffer is
    /// left for the result.
    pub fn take_filter(&mut self) -> (r: (Option<Vec<u64>>, Option<Vec<u64>>))
        ensures
            (opt_view(r.0), opt_view(r.1), final(self)@.stack) == filter_operands(old(self)@),
            final(self).buffer == old(self).buffer,
    {
        self.take_arith()
    }

    /// Loads numbers into the buffer (see `load_step`).
    pub fn load(&mut self, values: Vec<u64>, replace: bool)
        ensures
            final(self)@ == load_step(old(self)@, values@, replace),
    {
        let b = self.buffer.take();
        match b {
            Some(c) => {
                if replace {
                    self.buffer = Some(values);
                } else {
                    self.buffer = Some(joined_arrays(&c, &values));
                }
            },
            None => {
                self.buffer = Some(values);
            },
        }
    }

    /// Whether `(` finds nothing to loop on (see `loop_blocked`).
    pub fn blocked(&self) -> (r: bool)
        ensures
            r == loop_blocked(self@),
    {
        self.buffer.is_none() && self.stack.len() == 0
    }
}

/// `a` is a prefix of `b`.
pub open spec fn is_prefix(a: Seq<Seq<u64>>, b: Seq<Seq<u64>>) -> bool {
    a.len() <= b.len() && a == b.take(a.len() as int)
}

/// Last in, first out: `;` then `@` leaves the stack as it was and puts the
/// old buffer (an empty array when there was none) back in the buffer.
pub proof fn law_push_then_recall(s: StoreView)
    ensures
        recall_step(push_step(s)).stack == s.stack,
        recall_step(push_step(s)).buffer == Some(or_empty(s.buffer)),
{
    assert(s.stack.push(or_empty(s.buffer)).drop_last() =~= s.stack);
}

/// `:` then `@` leaves the stack as it was and puts a copy of its top in the
/// buffer.
pub proof fn law_duplicate_then_recall(s: StoreView)
    requires
        s.stack.len() > 0,
    ensures
        recall_step(duplicate_step(s)).stack == s.stack,
        recall_step(duplicate_step(s)).buffer == Some(s.stack.last()),
{
    assert(s.stack.push(s.stack.last()).drop_last() =~= s.stack);
}

/// `:` puts an equal copy on top: afterwards the two top arrays are equal.
pub proof fn law_duplicate_copies(s: StoreView)
    requires
        s.stack.len() > 0,
    ensures
        duplicate_step(s).stack.len() == s.stack.len() + 1,
        duplicate_step(s).stack.last() == duplicate_step(s).stack[s.stack.len() - 1],
{
}

proof fn lemma_drop_prefix(b: Seq<Seq<u64>>, k: int)
    requires
        0 <= k <= b.len(),
    ensures
        is_prefix(b.take(k), b),
{
    assert(b.take(k) =~= b.take(b.take(k).len() as int));
}

/// Results go to the buffer, never into the stack: each instruction that
/// computes a result (`_ # | + - * / ^ % o = < >`), and each that prints or
/// tests (`. $ !`), leaves the stack a prefix of what it was: it only pops.
pub proof fn law_results_never_push(s: StoreView)
    ensures
        is_prefix(concat_step(s).stack, s.stack),
        is_prefix(overlay_step(s).stack, s.stack),
        is_prefix(split_step(s).stack, s.stack),
        is_prefix(arith_operands(s).2, s.stack),
        is_prefix(filter_operands(s).2, s.stack),
        is_prefix(take_step(s).1.stack, s.stack),
        is_prefix(skip_step(s).1.stack, s.stack),
        is_prefix(recall_step(s).stack, s.stack),
        is_prefix(clear_step(s).stack, s.stack),
        forall|v: Seq<u64>, r: bool| #[trigger] load_step(s, v, r).stack == s.stack,
{
    let n = s.stack.len() as int;
    lemma_drop_prefix(s.stack, n);
    assert(s.stack.take(n) =~= s.stack);
    if n >= 1 {
        lemma_drop_prefix(s.stack, n - 1);
        assert(s.stack.drop_last() =~= s.stack.take(n - 1));
    }
    if n >= 2 {
        lemma_drop_prefix(s.stack, n - 2);
    }
    lemma_drop_prefix(s.stack, 0);
    assert(s.stack.take(0) =~= seq![]);
}

/// Loading numbers one after the other, the first replacing the buffer,
/// gives a buffer holding exactly those numbers, in order.
pub open spec fn load_all(s: StoreView, values: Seq<u64>) -> StoreView
    decreases values.len(),
{
    if values.len() == 0 {
        s
    } else {
        let t = load_all(s, values.drop_last());
        load_step(t, seq![values.last()], values.len() == 1)
    }
}

/// A sequence of numbers is an array that gets put in the buffer: loading
/// the numbers of a line one by one (the first replacing the buffer) leaves
/// the buffer holding them all, and the stack untouched.
pub proof fn law_numbers_fill_buffer(s: StoreView, values: Seq<u64>)
    requires
        values.len() > 0,
    ensures
        load_all(s, values).buffer == Some(values),
        load_all(s, values).stack == s.stack,
    decreases values.len(),
{
    if values.len() == 1 {
        assert(values.drop_last() =~= seq![]);
        assert(seq![values.last()] =~= values);
    } else {
        law_numbers_fill_buffer(s, values.drop_last());
        assert(values.drop_last() + seq![values.last()] =~= values);
    }
}

/// Arithmetic combines the two operands into the buffer: with both operands
/// present the buffer holds as many elements as the longer one (or as the
/// other one, when one of them has a single element).
pub proof fn law_arith_length(a: Seq<u64>, b: Seq<u64>, values: Seq<u64>)
    requires
        values.len() == crate::vector::arith_pairs(Some(a), Some(b)).len(),
    ensures
        a.len() == 1 ==> arith_result(Some(a), Some(b), values) == Some(values) && values.len()
            == b.len(),
        a.len() != 1 && b.len() == 1 ==> arith_result(Some(a), Some(b), values) == Some(values)
            && values.len() == a.len(),
        a.len() != 1 && b.len() != 1 ==> or_empty(arith_result(Some(a), Some(b), values)).len()
            == if a.len() >= b.len() {
            a.len()
        } else {
            b.len()
        },
{
}

/// `|` leaves in the buffer, alone, the last element of the array it takes:
/// the buffer when there is one, else the top of the stack, which is popped.
pub proof fn law_split_keeps_the_last_element(s: StoreView)
    ensures
        s.buffer is Some && s.buffer.unwrap().len() > 0 ==> split_step(s).buffer == Some(
            seq![s.buffer.unwrap()[s.buffer.unwrap().len() - 1]],
        ) && split_step(s).stack == s.stack,
        s.buffer is None && s.stack.len() > 0 && s.stack.last().len() > 0 ==> split_step(s).buffer
            == Some(seq![s.stack.last()[s.stack.last().len() - 1]]) && split_step(s).stack
            == s.stack.drop_last(),
        s.buffer is None && s.stack.len() > 0 ==> split_step(s).stack.len() + 1 == s.stack.len(),
{
}

/// `!` asks to skip the rest of the line exactly when the array it takes
/// (the buffer, else the popped top of the stack) is not empty; it leaves
/// no buffer.
pub proof fn law_skip_exactly_on_a_non_empty_array(s: StoreView)
    ensures
        s.buffer is Some ==> skip_step(s).0 == (s.buffer.unwrap().len() > 0) && skip_step(s).1.stack
            == s.stack,
        s.buffer is None && s.stack.len() > 0 ==> skip_step(s).0 == (s.stack.last().len() > 0)
            && skip_step(s).1.stack == s.stack.drop_last(),
        s.buffer is None && s.stack.len() == 0 ==> !skip_step(s).0,
        skip_step(s).1.buffer is None,
{
}

/// The operands of a filter: with a buffer, the buffer is the pattern and
/// the popped top of the stack is filtered; without one, the top of the
/// stack is the pattern and the array below it is filtered (both popped).
pub proof fn law_filter_pattern_is_the_newer_array(s: StoreView)
    ensures
        s.buffer is Some && s.stack.len() > 0 ==> filter_operands(s) == (
            s.buffer,
            Some(s.stack[s.stack.len() - 1]),
            s.stack.subrange(0, s.stack.len() - 1),
        ),
        s.buffer is None && s.stack.len() >= 2 ==> filter_operands(s) == (
            Some(s.stack[s.stack.len() - 1]),
            Some(s.stack[s.stack.len() - 2]),
            s.stack.subrange(0, s.stack.len() - 2),
        ),
{
    if s.stack.len() > 0 {
        assert(s.stack.drop_last() =~= s.stack.subrange(0, s.stack.len() - 1));
    }
    if s.stack.len() >= 2 {
        assert(s.stack.take(s.stack.len() - 2) =~= s.stack.subrange(0, s.stack.len() - 2));
    }
}

/// The operands of an arithmetic instruction: with a buffer, the buffer is
/// the left operand and the popped top of the stack the right one; without
/// one, the top of the stack is the left operand and the array below it the
/// right one (both popped).
pub proof fn law_arith_left_operand_is_the_newer_array(s: StoreView)
    ensures
        s.buffer is Some && s.stack.len() > 0 ==> arith_operands(s) == (
            s.buffer,
            Some(s.stack[s.stack.len() - 1]),
            s.stack.subrange(0, s.stack.len() - 1),
        ),
        s.buffer is None && s.stack.len() >= 2 ==> arith_operands(s) == (
            Some(s.stack[s.stack.len() - 1]),
            Some(s.stack[s.stack.len() - 2]),
            s.stack.subrange(0, s.stack.len() - 2),
        ),
{
    if s.stack.len() > 0 {
        assert(s.stack.drop_last() =~= s.stack.subrange(0, s.stack.len() - 1));
    }
    if s.stack.len() >= 2 {
        assert(s.stack.take(s.stack.len() - 2) =~= s.stack.subrange(0, s.stack.len() - 2));
    }
}

/// A filter keeps only elements of the filtered array, in order: the result
/// is never longer than that array.
pub proof fn law_filter_shrinks(vector: Seq<u64>, table: Seq<Seq<bool>>)
    ensures
        kept(vector, table).len() <= vector.len(),
    decreases vector.len(),
{
    if vector.len() > 0 {
        law_filter_shrinks(vector.drop_last(), table.drop_last());
    }
}

} // verus!
