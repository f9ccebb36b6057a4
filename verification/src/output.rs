//! What `.` and `$` print: an array written as numbers, and an array read as
//! character codes.
use vstd::prelude::*;
use crate::text::{chars_of, is_space, string_of, trim, trim_end, trim_start, trimmed};
use crate::error::{FarError, Fault};

verus! {

/// Each item followed by one space: `"{x} {y} {z} "`.
pub open spec fn spaced(items: Seq<Seq<char>>) -> Seq<char>
    decreases items.len(),
{
    if items.len() == 0 {
        seq![]
    } else {
        spaced(items.drop_last()) + items.last() + seq![' ']
    }
}

/// The text of a printed array, given the text of each element: the
/// elements separated by spaces, with the whitespace at both ends removed.
pub open spec fn pretty(items: Seq<Seq<char>>) -> Seq<char> {
    trim(spaced(items))
}

/// The texts of a sequence of strings.
pub open spec fn string_texts(v: Seq<String>) -> Seq<Seq<char>> {
    v.map_values(|s: String| s@)
}

/// Writes the elements of an array one after the other, each followed by a
/// space, and trims the result; the text of each element is given (the
/// caller writes each element with `Debug`).
pub fn prettyformat(items: Vec<String>) -> (r: String)
    ensures
        r@ == pretty(string_texts(items@)),
        items@.len() == 0 ==> r@.len() == 0,
{
    if items.len() == 0 {
        let r = String::new();
        assert(spaced(string_texts(items@)) =~= seq![]);
        return r;
    }
    let mut acc: Vec<char> = Vec::new();
    let n = items.len();
    for i in 0..n
        invariant
            n == items@.len(),
            acc@ == spaced(string_texts(items@).take(i as int)),
    {
        let cs = chars_of(items[i].as_str());
        let k = cs.len();
        let ghost before = acc@;
        for j in 0..k
            invariant
                k == cs@.len(),
                acc@ == before + cs@.take(j as int),
        {
            acc.push(cs[j]);
            assert(cs@.take(j + 1) =~= cs@.take(j as int).push(cs@[j as int]));
            assert(acc@ =~= before + cs@.take(j + 1));
        }
        acc.push(' ');
        let ghost t = string_texts(items@).take(i + 1);
        assert(t.drop_last() =~= string_texts(items@).take(i as int));
        assert(cs@.take(k as int) =~= cs@);
        assert(acc@ =~= spaced(t));
    }
    assert(string_texts(items@).take(n as int) =~= string_texts(items@));
    let t = trimmed(acc.as_slice());
    string_of(t.as_slice())
}

/// The items joined by single spaces.
pub open spec fn joined(items: Seq<Seq<char>>) -> Seq<char>
    decreases items.len(),
{
    if items.len() == 0 {
        seq![]
    } else if items.len() == 1 {
        items[0]
    } else {
        joined(items.drop_last()) + seq![' '] + items.last()
    }
}

/// A text that is not empty and holds no whitespace.
pub open spec fn solid(t: Seq<char>) -> bool {
    t.len() > 0 && forall|i: int| 0 <= i < t.len() ==> !is_space(#[trigger] t[i])
}

proof fn lemma_spaced_joined(items: Seq<Seq<char>>)
    requires
        items.len() > 0,
    ensures
        spaced(items) == joined(items) + seq![' '],
    decreases items.len(),
{
    if items.len() == 1 {
        assert(items.drop_last() =~= Seq::<Seq<char>>::empty());
        assert(spaced(items.drop_last()) =~= seq![]);
        assert(spaced(items) =~= joined(items) + seq![' ']);
    } else {
        lemma_spaced_joined(items.drop_last());
        assert(spaced(items) =~= joined(items) + seq![' ']);
    }
}

proof fn lemma_joined_solid_ends(items: Seq<Seq<char>>)
    requires
        items.len() > 0,
        forall|i: int| 0 <= i < items.len() ==> solid(#[trigger] items[i]),
    ensures
        joined(items).len() > 0,
        !is_space(joined(items)[0]),
        !is_space(joined(items).last()),
    decreases items.len(),
{
    if items.len() == 1 {
        assert(solid(items[0]));
        assert(!is_space(items[0][0]));
        assert(!is_space(items[0][items[0].len() - 1]));
    } else {
        let front = items.drop_last();
        assert forall|i: int| 0 <= i < front.len() implies solid(#[trigger] front[i]) by {
            assert(front[i] == items[i]);
        }
        lemma_joined_solid_ends(front);
        let l = items.last();
        assert(solid(items[items.len() - 1]));
        let j = joined(items);
        assert(j == joined(front) + seq![' '] + l);
        assert(j[0] == joined(front)[0]);
        assert(j.last() == l[l.len() - 1]);
    }
}

/// Printing an array whose element texts are non-empty and hold no
/// whitespace gives those texts separated by single spaces
/// (`[x, y, z]` is printed `x y z`); nothing is printed for an empty array.
pub proof fn law_pretty_separates_by_spaces(items: Seq<Seq<char>>)
    requires
        forall|i: int| 0 <= i < items.len() ==> solid(#[trigger] items[i]),
    ensures
        pretty(items) == joined(items),
        pretty(items).len() == 0 <==> items.len() == 0,
{
    if items.len() == 0 {
        assert(spaced(items) =~= seq![]);
        assert(pretty(items) =~= seq![]);
    } else {
        lemma_spaced_joined(items);
        lemma_joined_solid_ends(items);
        let j = joined(items);
        let s = j + seq![' '];
        assert(s[0] == j[0]);
        assert(trim_start(s) == s);
        assert(s.last() == ' ');
        assert(is_space(' '));
        assert(s.drop_last() =~= j);
        assert(trim_end(s) == trim_end(j));
        assert(trim_end(j) == j);
    }
}

/// A number that is a byte, and so the code of a character.
pub open spec fn is_byte(n: i64) -> bool {
    0 <= n <= 255
}

/// The characters whose codes are given (all of them bytes).
pub open spec fn byte_chars(codes: Seq<i64>) -> Seq<char> {
    codes.map_values(|n: i64| (n as u8) as char)
}

/// `$` on an array of character codes (the integer parts of its numbers):
/// the text, or the first code that is not a byte.
pub open spec fn convert(codes: Seq<i64>) -> Result<Seq<char>, Fault> {
    if exists|i: int| 0 <= i < codes.len() && !is_byte(codes[i]) {
        let i = choose|i: int|
            0 <= i < codes.len() && !is_byte(codes[i]) && forall|j: int|
                0 <= j < i ==> is_byte(codes[j]);
        Err(Fault::BadCode(codes[i] as int))
    } else {
        Ok(byte_chars(codes))
    }
}

proof fn lemma_first_non_byte(codes: Seq<i64>, i: int)
    requires
        0 <= i < codes.len(),
        !is_byte(codes[i]),
        forall|j: int| 0 <= j < i ==> is_byte(codes[j]),
    ensures
        convert(codes) == Err::<Seq<char>, Fault>(Fault::BadCode(codes[i] as int)),
{
    let k = choose|k: int|
        0 <= k < codes.len() && !is_byte(codes[k]) && forall|j: int| 0 <= j < k ==> is_byte(codes[j]);
    assert(0 <= k < codes.len() && !is_byte(codes[k]) && forall|j: int|
        0 <= j < k ==> is_byte(codes[j]));
    if k < i {
        assert(is_byte(codes[k]));
    }
    if i < k {
        assert(is_byte(codes[i]));
    }
}

/// The code point of each character, as an integer.
pub open spec fn char_codes(t: Seq<char>) -> Seq<i64> {
    t.map_values(|c: char| (c as u32) as i64)
}

/// Text read back from codes: the codes of a text whose characters are all
/// below 256 convert back to that text (so `,` followed by `$` echoes such a
/// line, up to what `,` makes of its numbers and escapes).
pub proof fn law_codes_round_trip(t: Seq<char>)
    requires
        forall|i: int| 0 <= i < t.len() ==> (#[trigger] t[i] as u32) < 256,
    ensures
        convert(char_codes(t)) == Ok::<Seq<char>, Fault>(t),
{
    let codes = char_codes(t);
    assert forall|i: int| 0 <= i < codes.len() implies is_byte(#[trigger] codes[i]) by {
        assert((t[i] as u32) < 256);
    }
    assert forall|i: int| 0 <= i < t.len() implies #[trigger] byte_chars(codes)[i] == t[i] by {
        let c = t[i];
        assert((c as u32) < 256);
        let n: u32 = c as u32;
        let m: i64 = n as i64;
        assert(m == n);
        let b: u8 = m as u8;
        assert(b == n);
        let d: char = b as char;
        assert(d as u32 == n);
        assert((n as char) == c) by {
            vstd::utf8::char_u32_cast(c, n);
        }
        vstd::utf8::char_u32_cast(d, n);
        assert(d == c);
    }
    assert(byte_chars(codes) =~= t);
}

/// The view of a text result.
pub open spec fn text_result(r: Result<String, FarError>) -> Result<Seq<char>, Fault> {
    match r {
        Ok(s) => Ok(s@),
        Err(e) => Err(e@),
    }
}

/// Reads an array of character codes (the integer parts of the numbers that
/// `$` prints) as text: each code must be a byte, and stands for the
/// character with that number.
pub fn tryconvert(codes: Vec<i64>) -> (r: Result<String, FarError>)
    ensures
        text_result(r) == convert(codes@),
{
    let mut acc: Vec<char> = Vec::new();
    let n = codes.len();
    for i in 0..n
        invariant
            n == codes@.len(),
            forall|j: int| 0 <= j < i ==> is_byte(codes@[j]),
            acc@ == byte_chars(codes@.take(i as int)),
    {
        let code = codes[i];
        if 0 <= code && code <= 255 {
            let b = code as u8;
            acc.push(b as char);
            assert(byte_chars(codes@.take(i + 1)) =~= byte_chars(codes@.take(i as int)).push(
                (code as u8) as char,
            ));
        } else {
            proof {
                lemma_first_non_byte(codes@, i as int);
            }
            return Err(FarError::BadCode(code));
        }
    }
    assert(codes@.take(n as int) =~= codes@);
    Ok(string_of(acc.as_slice()))
}

} // verus!
