//! How two arrays are combined element by element, and how one array is
//! filtered by another. The numbers are IEEE-754 doubles, held as their bit
//! patterns; the arithmetic and comparisons on them are done by the caller,
//! from the pairs that these functions name.
use vstd::prelude::*;
use crate::store::or_empty;

verus! {

/// The smaller of two lengths.
pub open spec fn min_len(a: nat, b: nat) -> nat {
    if a <= b {
        a
    } else {
        b
    }
}

/// The pairs `(x, y)` for which an arithmetic instruction computes `x op y`:
/// when the first array has one element `v`, each element `x` of the second
/// with `v`; else, when the second has one element `v`, each element of the
/// first with `v`; else the elements at equal positions, as far as both
/// arrays go. Nothing is computed unless both arrays are given.
pub open spec fn arith_pairs(first: Option<Seq<u64>>, second: Option<Seq<u64>>) -> Seq<(u64, u64)> {
    match (first, second) {
        (Some(a), Some(b)) => if a.len() == 1 {
            b.map_values(|x: u64| (x, a[0]))
        } else if b.len() == 1 {
            a.map_values(|x: u64| (x, b[0]))
        } else {
            Seq::new(min_len(a.len(), b.len()), |i: int| (a[i], b[i]))
        },
        _ => seq![],
    }
}

/// `vecop`: the result of an arithmetic instruction, given the result of each
/// pair of `arith_pairs`. Element-wise results are followed by the elements
/// that the longer array has beyond the shorter one; a missing array leaves
/// the other unchanged; with both missing there is no result.
pub open spec fn arith_result(
    first: Option<Seq<u64>>,
    second: Option<Seq<u64>>,
    values: Seq<u64>,
) -> Option<Seq<u64>> {
    match (first, second) {
        (Some(a), Some(b)) => if a.len() == 1 || b.len() == 1 {
            Some(values)
        } else {
            let m = min_len(a.len(), b.len()) as int;
            Some(values + a.skip(m) + b.skip(m))
        },
        (Some(a), None) => Some(a),
        (None, Some(b)) => Some(b),
        (None, None) => None,
    }
}

/// The view of an optional array.
pub open spec fn opt_view(v: Option<Vec<u64>>) -> Option<Seq<u64>> {
    match v {
        Some(x) => Some(x@),
        None => None,
    }
}

fn pairs_with(v: &Vec<u64>, w: u64) -> (r: Vec<(u64, u64)>)
    ensures
        r@ == v@.map_values(|x: u64| (x, w)),
{
    let mut r: Vec<(u64, u64)> = Vec::new();
    let n = v.len();
    for i in 0..n
        invariant
            n == v@.len(),
            r@ == v@.take(i as int).map_values(|x: u64| (x, w)),
    {
        r.push((v[i], w));
        assert(v@.take(i + 1).map_values(|x: u64| (x, w)) =~= v@.take(i as int).map_values(
            |x: u64| (x, w),
        ).push((v@[i as int], w)));
    }
    assert(v@.take(n as int) =~= v@);
    r
}

/// The pairs whose results an arithmetic instruction needs (see
/// `arith_pairs`).
pub fn vecop_pairs(first: &Option<Vec<u64>>, second: &Option<Vec<u64>>) -> (r: Vec<(u64, u64)>)
    ensures
        r@ == arith_pairs(opt_view(*first), opt_view(*second)),
{
    match (first, second) {
        (Some(a), Some(b)) => {
            if a.len() == 1 {
                pairs_with(b, a[0])
            } else if b.len() == 1 {
                pairs_with(a, b[0])
            } else {
                let m = if a.len() <= b.len() {
                    a.len()
                } else {
                    b.len()
                };
                let mut r: Vec<(u64, u64)> = Vec::new();
                for i in 0..m
                    invariant
                        m == min_len(a@.len(), b@.len()),
                        r@ =~= Seq::new(i as nat, |j: int| (a@[j], b@[j])),
                {
                    r.push((a[i], b[i]));
                }
                r
            }
        },
        _ => Vec::new(),
    }
}

fn append_from(r: &mut Vec<u64>, v: &Vec<u64>, from: usize)
    requires
        from <= v@.len(),
    ensures
        final(r)@ == old(r)@ + v@.skip(from as int),
{
    let n = v.len();
    let ghost start = r@;
    for i in from..n
        invariant
            n == v@.len(),
            from <= n,
            r@ == start + v@.subrange(from as int, i as int),
    {
        r.push(v[i]);
        assert(v@.subrange(from as int, i + 1) =~= v@.subrange(from as int, i as int).push(
            v@[i as int],
        ));
    }
    assert(v@.subrange(from as int, n as int) =~= v@.skip(from as int));
}

/// Arithmetic on two arrays, neither with a single element, works position
/// by position as far as the shorter one goes, the element of the first
/// array on the left of the operator and that of the second on the right,
/// whichever array is longer; swapping the arrays swaps each pair.
pub proof fn law_pairs_at_equal_positions(a: Seq<u64>, b: Seq<u64>)
    requires
        a.len() != 1,
        b.len() != 1,
    ensures
        arith_pairs(Some(a), Some(b)).len() == (if a.len() <= b.len() { a.len() } else { b.len() }),
        forall|i: int|
            0 <= i < arith_pairs(Some(a), Some(b)).len() ==> (#[trigger] arith_pairs(Some(a), Some(b))[i]).0
                == a[i] && arith_pairs(Some(a), Some(b))[i].1 == b[i],
        arith_pairs(Some(b), Some(a)).len() == arith_pairs(Some(a), Some(b)).len(),
        forall|i: int|
            0 <= i < arith_pairs(Some(a), Some(b)).len() ==> (#[trigger] arith_pairs(Some(b), Some(a))[i])
                == (arith_pairs(Some(a), Some(b))[i].1, arith_pairs(Some(a), Some(b))[i].0),
{
}

/// An array of a single element is the right operand of each element of the
/// other array, whichever of the two it is.
pub proof fn law_single_element_is_the_right_operand(a: Seq<u64>, v: u64)
    ensures
        arith_pairs(Some(seq![v]), Some(a)).len() == a.len(),
        forall|i: int| 0 <= i < a.len() ==> #[trigger] arith_pairs(Some(seq![v]), Some(a))[i] == (a[i], v),
        a.len() != 1 ==> arith_pairs(Some(a), Some(seq![v])).len() == a.len(),
        a.len() != 1 ==> forall|i: int|
            0 <= i < a.len() ==> #[trigger] arith_pairs(Some(a), Some(seq![v]))[i] == (a[i], v),
{
}

/// The result of arithmetic on two arrays, neither with a single element:
/// the result of each pair, at its position, then the elements that the
/// longer array has beyond the shorter one, unchanged.
pub proof fn law_result_is_pairwise_then_longer_tail(a: Seq<u64>, b: Seq<u64>, values: Seq<u64>)
    requires
        a.len() != 1,
        b.len() != 1,
        values.len() == arith_pairs(Some(a), Some(b)).len(),
    ensures
        arith_result(Some(a), Some(b), values) is Some,
        or_empty(arith_result(Some(a), Some(b), values)).len() == (if a.len() >= b.len() { a.len() } else { b.len() }),
        forall|i: int|
            0 <= i < values.len() ==> #[trigger] or_empty(arith_result(Some(a), Some(b), values))[i] == values[i],
        forall|i: int|
            values.len() <= i < a.len() ==> #[trigger] or_empty(arith_result(Some(a), Some(b), values))[i] == a[i],
        forall|i: int|
            values.len() <= i < b.len() ==> #[trigger] or_empty(arith_result(Some(a), Some(b), values))[i] == b[i],
{
    let m = values.len() as int;
    if a.len() >= b.len() {
        assert(b.skip(m) =~= seq![]);
    } else {
        assert(a.skip(m) =~= seq![]);
    }
}

/// Combines two optional arrays element by element (the `+ - * / ^ %`
/// instructions), given the result of each pair that `vecop_pairs` names.
pub fn vecop(first: Option<Vec<u64>>, second: Option<Vec<u64>>, values: Vec<u64>) -> (r: Option<
    Vec<u64>,
>)
    requires
        values@.len() == arith_pairs(opt_view(first), opt_view(second)).len(),
    ensures
        opt_view(r) == arith_result(opt_view(first), opt_view(second), values@),
{
    match (first, second) {
        (Some(a), Some(b)) => {
            if a.len() == 1 || b.len() == 1 {
                Some(values)
            } else {
                let m = if a.len() <= b.len() {
                    a.len()
                } else {
                    b.len()
                };
                let mut r = values;
                append_from(&mut r, &a, m);
                append_from(&mut r, &b, m);
                Some(r)
            }
        },
        (Some(a), None) => Some(a),
        (None, Some(b)) => Some(b),
        (None, None) => None,
    }
}

/// Some entry of a row is true.
pub open spec fn any_true(row: Seq<bool>) -> bool {
    exists|j: int| 0 <= j < row.len() && row[j]
}

/// The elements of `vector` that a filter keeps: those whose row of the
/// table (the comparison of the element with each element of the pattern)
/// holds a true entry, in their order.
pub open spec fn kept(vector: Seq<u64>, table: Seq<Seq<bool>>) -> Seq<u64>
    decreases vector.len(),
{
    if vector.len() == 0 {
        seq![]
    } else {
        kept(vector.drop_last(), table.drop_last()) + if any_true(table.last()) {
            seq![vector.last()]
        } else {
            seq![]
        }
    }
}

/// `x` is an element of `vector` whose row of `table` holds a true entry.
pub open spec fn related_element(vector: Seq<u64>, table: Seq<Seq<bool>>, x: u64) -> bool {
    exists|i: int| 0 <= i < vector.len() && any_true(table[i]) && vector[i] == x
}

/// A filter keeps exactly the elements of the filtered array whose row of
/// the table (its comparison with each element of the pattern) holds a true
/// entry: each element kept is one of them, and each of them is kept.
pub proof fn law_filter_keeps_exactly_the_related(vector: Seq<u64>, table: Seq<Seq<bool>>)
    requires
        table.len() == vector.len(),
    ensures
        forall|k: int|
            0 <= k < kept(vector, table).len() ==> related_element(
                vector,
                table,
                #[trigger] kept(vector, table)[k],
            ),
        forall|i: int|
            0 <= i < vector.len() && any_true(table[i]) ==> kept(vector, table).contains(
                #[trigger] vector[i],
            ),
    decreases vector.len(),
{
    if vector.len() > 0 {
        let v0 = vector.drop_last();
        let t0 = table.drop_last();
        law_filter_keeps_exactly_the_related(v0, t0);
        let k0 = kept(v0, t0);
        let n = vector.len() - 1;
        let tail = if any_true(table.last()) { seq![vector.last()] } else { seq![] };
        assert(kept(vector, table) == k0 + tail);
        assert forall|k: int| 0 <= k < kept(vector, table).len() implies related_element(
            vector,
            table,
            #[trigger] kept(vector, table)[k],
        ) by {
            if k < k0.len() {
                assert(kept(vector, table)[k] == k0[k]);
                assert(related_element(v0, t0, k0[k]));
                let i = choose|i: int| 0 <= i < v0.len() && any_true(t0[i]) && v0[i] == k0[k];
                assert(vector[i] == v0[i] && table[i] == t0[i]);
            } else {
                assert(tail.len() > 0);
                assert(table[n] == table.last());
                assert(kept(vector, table)[k] == vector[n]);
            }
        }
        assert forall|i: int| 0 <= i < vector.len() && any_true(table[i]) implies kept(
            vector,
            table,
        ).contains(#[trigger] vector[i]) by {
            if i < n {
                assert(v0[i] == vector[i] && t0[i] == table[i]);
                assert(k0.contains(v0[i]));
                let j = choose|j: int| 0 <= j < k0.len() && k0[j] == v0[i];
                assert(kept(vector, table)[j] == k0[j]);
            } else {
                assert(kept(vector, table)[k0.len() as int] == vector[n]);
            }
        }
    }
}

/// The rows of a table of truths.
pub open spec fn rows(t: Seq<Vec<bool>>) -> Seq<Seq<bool>> {
    t.map_values(|r: Vec<bool>| r@)
}

fn has_true(row: &Vec<bool>) -> (r: bool)
    ensures
        r == any_true(row@),
{
    let n = row.len();
    for j in 0..n
        invariant
            n == row@.len(),
            forall|k: int| 0 <= k < j ==> !row@[k],
    {
        if row[j] {
            return true;
        }
    }
    false
}

/// Keeps the elements of `vector` whose row of `table` holds a true entry
/// (a filter: row `i` compares element `i` with each element of the
/// pattern).
pub fn filter(vector: &Vec<u64>, table: &Vec<Vec<bool>>) -> (r: Vec<u64>)
    requires
        table@.len() == vector@.len(),
    ensures
        r@ == kept(vector@, rows(table@)),
{
    let n = vector.len();
    let mut r: Vec<u64> = Vec::new();
    for i in 0..n
        invariant
            n == vector@.len(),
            table@.len() == n,
            r@ == kept(vector@.take(i as int), rows(table@).take(i as int)),
    {
        let keep = has_true(&table[i]);
        assert(vector@.take(i + 1).drop_last() =~= vector@.take(i as int));
        assert(rows(table@).take(i + 1).drop_last() =~= rows(table@).take(i as int));
        assert(rows(table@).take(i + 1).last() == table@[i as int]@);
        if keep {
            r.push(vector[i]);
        }
        assert(r@ =~= kept(vector@.take(i + 1), rows(table@).take(i + 1)));
    }
    assert(vector@.take(n as int) =~= vector@);
    assert(rows(table@).take(n as int) =~= rows(table@));
    r
}

} // verus!
