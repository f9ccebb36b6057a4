//! What `,` makes of a line of input: each chunk (a piece that ends after a
//! space or a tab) becomes one number if it reads as one, else the codes of
//! its characters, without the space or tab that ends it.
use vstd::prelude::*;
use crate::text::{chars_of, string_of, texts, trim, trimmed};
use crate::output::string_texts;

verus! {

/// The characters after which `,` cuts its input.
pub open spec fn is_separator(c: char) -> bool {
    c == ' ' || c == '\t'
}

/// Reading a string from the left while cutting after each separator: the
/// chunks completed so far and the chunk still being read.
pub open spec fn chunk_state(s: Seq<char>) -> (Seq<Seq<char>>, Seq<char>)
    decreases s.len(),
{
    if s.len() == 0 {
        (seq![], seq![])
    } else {
        let (done, cur) = chunk_state(s.drop_last());
        let grown = cur.push(s.last());
        if is_separator(s.last()) {
            (done.push(grown), seq![])
        } else {
            (done, grown)
        }
    }
}

/// `str::split_inclusive(&[' ', '\t'])`: the pieces of a string, each ending
/// with its separator (but the last one, which may have none).
pub open spec fn chunks(s: Seq<char>) -> Seq<Seq<char>> {
    let (done, cur) = chunk_state(s);
    if cur.len() > 0 {
        done.push(cur)
    } else {
        done
    }
}

/// A sequence of texts written one after the other.
pub open spec fn flatten(v: Seq<Seq<char>>) -> Seq<char>
    decreases v.len(),
{
    if v.len() == 0 {
        seq![]
    } else {
        flatten(v.drop_last()) + v.last()
    }
}

proof fn lemma_chunk_state(s: Seq<char>)
    ensures
        flatten(chunk_state(s).0) + chunk_state(s).1 == s,
        forall|k: int|
            0 <= k < chunk_state(s).0.len() ==> (#[trigger] chunk_state(s).0[k]).len() > 0,
    decreases s.len(),
{
    if s.len() > 0 {
        lemma_chunk_state(s.drop_last());
        let (done, cur) = chunk_state(s.drop_last());
        let grown = cur.push(s.last());
        let sd = s.drop_last();
        assert(flatten(done) + cur == sd);
        assert(flatten(done) + grown =~= sd.push(s.last()));
        assert(sd.push(s.last()) =~= s);
        if is_separator(s.last()) {
            assert(done.push(grown).drop_last() =~= done);
            assert(flatten(done.push(grown)) == flatten(done) + grown);
            assert(flatten(done.push(grown)) + seq![] =~= flatten(done.push(grown)));
        }
    } else {
        assert(flatten(chunk_state(s).0) + chunk_state(s).1 =~= s);
    }
}

/// The chunks of a string, written one after the other, give the string
/// back, and none of them is empty.
pub proof fn law_chunks_cover(s: Seq<char>)
    ensures
        flatten(chunks(s)) == s,
        forall|k: int| 0 <= k < chunks(s).len() ==> (#[trigger] chunks(s)[k]).len() > 0,
{
    lemma_chunk_state(s);
    let (done, cur) = chunk_state(s);
    if cur.len() > 0 {
        assert(done.push(cur).drop_last() =~= done);
    } else {
        assert(flatten(done) + cur =~= flatten(done));
    }
}

/// Cuts a string after each space and tab.
pub fn split_chunks(s: &[char]) -> (r: Vec<Vec<char>>)
    ensures
        texts(r@) == chunks(s@),
{
    let n = s.len();
    let mut done: Vec<Vec<char>> = Vec::new();
    let mut cur: Vec<char> = Vec::new();
    for i in 0..n
        invariant
            n == s@.len(),
            (texts(done@), cur@) == chunk_state(s@.take(i as int)),
    {
        assert(s@.take(i + 1).drop_last() =~= s@.take(i as int));
        assert(s@.take(i + 1).last() == s@[i as int]);
        let c = s[i];
        cur.push(c);
        if c == ' ' || c == '\t' {
            let ghost dv = texts(done@);
            let w = cur;
            done.push(w);
            assert(texts(done@) =~= dv.push(w@));
            cur = Vec::new();
        }
    }
    assert(s@.take(n as int) =~= s@);
    if cur.len() > 0 {
        let ghost dv = texts(done@);
        let w = cur;
        done.push(w);
        assert(texts(done@) =~= dv.push(w@));
    }
    done
}

/// A character below 128.
pub open spec fn is_ascii_char(c: char) -> bool {
    (c as u32) < 128
}

/// A chunk that stops the interpreter: it starts with `\` followed by a
/// character outside ASCII (one that does not read as a number), so that
/// the rest of the chunk after its second byte is taken, and that byte lies
/// inside the character (slicing a `str` there panics).
pub open spec fn splits_a_char(c: Seq<char>) -> bool {
    c.len() > 1 && c[0] == '\\' && !is_ascii_char(c[1])
}

/// No chunk of the input splits a character when it is read.
pub open spec fn input_readable(s: Seq<char>) -> bool {
    forall|k: int| 0 <= k < chunks(s).len() ==> !splits_a_char(#[trigger] chunks(s)[k])
}

/// The three strings that are tried as numbers for a chunk: the chunk
/// trimmed, the chunk without its first character, and without its first
/// two characters.
pub open spec fn chunk_queries(c: Seq<char>) -> Seq<Seq<char>> {
    seq![
        trim(c),
        if c.len() >= 1 { c.skip(1) } else { seq![] },
        if c.len() >= 2 { c.skip(2) } else { seq![] },
    ]
}

/// The strings that are tried as numbers for an input, three per chunk.
pub open spec fn input_queries(chunks: Seq<Seq<char>>) -> Seq<Seq<char>>
    decreases chunks.len(),
{
    if chunks.len() == 0 {
        seq![]
    } else {
        input_queries(chunks.drop_last()) + chunk_queries(chunks.last())
    }
}

/// `char as u16`: the low sixteen bits of a character's code.
pub open spec fn code_unit(c: char) -> u16 {
    (c as u32) as u16
}

/// The code unit of each character.
pub open spec fn code_units(s: Seq<char>) -> Seq<u16> {
    s.map_values(|c: char| code_unit(c))
}

/// A leading `\` is dropped when what follows it reads as a number
/// (`\10` gives the codes of `1` and `0`), or when a second `\` follows it and
/// what follows both reads as a number (`\\10` gives `\`, `1` and `0`).
pub open spec fn drops_backslash(c: Seq<char>, rest1: Option<u64>, rest2: Option<u64>) -> bool {
    &&& c.len() > 1
    &&& c[0] == '\\'
    &&& (rest1 is Some || (rest2 is Some && c[1] == '\\'))
}

/// The chunk ends with its separator.
pub open spec fn ends_with_separator(c: Seq<char>) -> bool {
    c.len() > 0 && is_separator(c.last())
}

/// The numbers a chunk gives: its value when it reads as a number, else
/// the values of its characters' codes (`encoded`, one per character), less
/// the separator that ends it and less a dropped leading `\`.
pub open spec fn chunk_values(
    c: Seq<char>,
    whole: Option<u64>,
    rest1: Option<u64>,
    rest2: Option<u64>,
    encoded: Seq<u64>,
) -> Seq<u64> {
    match whole {
        Some(v) => seq![v],
        None => {
            let codes = if ends_with_separator(c) {
                encoded.drop_last()
            } else {
                encoded
            };
            if drops_backslash(c, rest1, rest2) {
                codes.skip(1)
            } else {
                codes
            }
        },
    }
}

/// The total length of a sequence of texts.
pub open spec fn total_len(v: Seq<Seq<char>>) -> nat
    decreases v.len(),
{
    if v.len() == 0 {
        0
    } else {
        total_len(v.drop_last()) + v.last().len()
    }
}

/// The numbers an input gives, chunk after chunk, from the answers to its
/// queries: `parsed` holds three answers per chunk (see `chunk_queries`),
/// `encoded` the value of each character's code unit.
pub open spec fn read_values(
    chunks: Seq<Seq<char>>,
    parsed: Seq<Option<u64>>,
    encoded: Seq<u64>,
) -> Seq<u64>
    decreases chunks.len(),
{
    if chunks.len() == 0 {
        seq![]
    } else {
        let n = chunks.len() - 1;
        let c = chunks[n];
        let off = encoded.len() - c.len();
        read_values(chunks.drop_last(), parsed.take(3 * n), encoded.take(off)) + chunk_values(
            c,
            parsed[3 * n],
            parsed[3 * n + 1],
            parsed[3 * n + 2],
            encoded.skip(off),
        )
    }
}

/// `parseinput`: the numbers a line of input gives.
pub open spec fn parse_input(input: Seq<char>, parsed: Seq<Option<u64>>, encoded: Seq<u64>) -> Seq<
    u64,
> {
    read_values(chunks(input), parsed, encoded)
}

/// Whether a line of input can be read without the interpreter stopping.
pub fn readable(input: &str) -> (r: bool)
    ensures
        r == input_readable(input@),
{
    let cs = chars_of(input);
    let ch = split_chunks(cs.as_slice());
    let n = ch.len();
    for k in 0..n
        invariant
            n == ch@.len(),
            texts(ch@) == chunks(input@),
            forall|j: int| 0 <= j < k ==> !splits_a_char(#[trigger] chunks(input@)[j]),
    {
        let c = &ch[k];
        assert(c@ == chunks(input@)[k as int]);
        if c.len() > 1 && c[0] == '\\' && !((c[1] as u32) < 128) {
            return false;
        }
    }
    true
}

fn skip_chars(c: &Vec<char>, k: usize) -> (r: Vec<char>)
    requires
        k <= c@.len(),
    ensures
        r@ == c@.skip(k as int),
{
    let mut r: Vec<char> = Vec::new();
    let n = c.len();
    let mut i = k;
    while i < n
        invariant
            k <= i <= n,
            n == c@.len(),
            r@ == c@.subrange(k as int, i as int),
        decreases n - i,
    {
        r.push(c[i]);
        assert(c@.subrange(k as int, i + 1) =~= c@.subrange(k as int, i as int).push(c@[i as int]));
        i = i + 1;
    }
    assert(c@.subrange(k as int, n as int) =~= c@.skip(k as int));
    r
}

/// The strings to try as numbers for the given chunks, three per chunk.
pub fn queries_of(ch: &Vec<Vec<char>>) -> (r: Vec<String>)
    ensures
        string_texts(r@) == input_queries(texts(ch@)),
{
    let mut r: Vec<String> = Vec::new();
    let n = ch.len();
    for k in 0..n
        invariant
            n == ch@.len(),
            string_texts(r@) == input_queries(texts(ch@).take(k as int)),
    {
        let c = &ch[k];
        let ghost before = string_texts(r@);
        let a = string_of(trimmed(c.as_slice()).as_slice());
        let b = if c.len() >= 1 {
            string_of(skip_chars(c, 1).as_slice())
        } else {
            String::new()
        };
        let d = if c.len() >= 2 {
            string_of(skip_chars(c, 2).as_slice())
        } else {
            String::new()
        };
        r.push(a);
        r.push(b);
        r.push(d);
        let ghost t = texts(ch@).take(k + 1);
        assert(t.drop_last() =~= texts(ch@).take(k as int));
        assert(t.last() == c@);
        assert(string_texts(r@) =~= before + chunk_queries(c@));
    }
    assert(texts(ch@).take(n as int) =~= texts(ch@));
    r
}

/// The strings to try as numbers when `,` reads `input`.
pub fn input_number_queries(input: &str) -> (r: Vec<String>)
    ensures
        string_texts(r@) == input_queries(chunks(input@)),
{
    let cs = chars_of(input);
    let ch = split_chunks(cs.as_slice());
    queries_of(&ch)
}

/// The code units of the characters of a text.
pub fn units_of_chars(s: &[char]) -> (r: Vec<u16>)
    ensures
        r@ == code_units(s@),
{
    let mut r: Vec<u16> = Vec::new();
    let n = s.len();
    for i in 0..n
        invariant
            n == s@.len(),
            r@ == code_units(s@.take(i as int)),
    {
        r.push((s[i] as u32) as u16);
        assert(code_units(s@.take(i + 1)) =~= code_units(s@.take(i as int)).push(
            code_unit(s@[i as int]),
        ));
    }
    assert(s@.take(n as int) =~= s@);
    r
}

/// The code units whose values `,` needs for `input`: one per character.
pub fn input_code_units(input: &str) -> (r: Vec<u16>)
    ensures
        r@ == code_units(input@),
{
    let cs = chars_of(input);
    units_of_chars(cs.as_slice())
}

proof fn lemma_total_len(v: Seq<Seq<char>>, k: int)
    requires
        0 <= k < v.len(),
    ensures
        total_len(v.take(k + 1)) == total_len(v.take(k)) + v[k].len(),
{
    assert(v.take(k + 1).drop_last() =~= v.take(k));
}

pub proof fn lemma_total_len_flatten(v: Seq<Seq<char>>)
    ensures
        total_len(v) == flatten(v).len(),
    decreases v.len(),
{
    if v.len() > 0 {
        lemma_total_len_flatten(v.drop_last());
    }
}

/// Assembles the numbers that the given chunks give, from the answers to
/// their queries.
pub fn values_of(ch: &Vec<Vec<char>>, parsed: &Vec<Option<u64>>, encoded: &Vec<u64>) -> (r: Vec<
    u64,
>)
    requires
        parsed@.len() == 3 * ch@.len(),
        encoded@.len() == total_len(texts(ch@)),
    ensures
        r@ == read_values(texts(ch@), parsed@, encoded@),
{
    let mut r: Vec<u64> = Vec::new();
    let n = ch.len();
    let pl = parsed.len();
    let el = encoded.len();
    let mut off: usize = 0;
    for k in 0..n
        invariant
            n == ch@.len(),
            pl == parsed@.len(),
            el == encoded@.len(),
            parsed@.len() == 3 * n,
            encoded@.len() == total_len(texts(ch@)),
            off == total_len(texts(ch@).take(k as int)),
            off <= encoded@.len(),
            r@ == read_values(texts(ch@).take(k as int), parsed@.take(3 * k), encoded@.take(off as int)),
    {
        let c = &ch[k];
        let ghost t = texts(ch@).take(k + 1);
        proof {
            lemma_total_len(texts(ch@), k as int);
            assert(t.drop_last() =~= texts(ch@).take(k as int));
            assert(t.last() == c@);
            assert(total_len(texts(ch@)) >= total_len(t)) by {
                lemma_prefix_total_len(texts(ch@), k + 1);
            }
        }
        let len = c.len();
        let whole = parsed[3 * k];
        let rest1 = parsed[3 * k + 1];
        let rest2 = parsed[3 * k + 2];
        let ghost before = r@;
        match whole {
            Some(v) => {
                r.push(v);
            },
            None => {
                let drop = len > 1 && c[0] == '\\' && (rest1.is_some() || (rest2.is_some() && c[1]
                    == '\\'));
                let mut i: usize = if drop {
                    1
                } else {
                    0
                };
                let start = i;
                let end = if len > 0 && (c[len - 1] == ' ' || c[len - 1] == '\t') {
                    len - 1
                } else {
                    len
                };
                while i < end
                    invariant
                        start <= i <= end <= len,
                        len == c@.len(),
                        el == encoded@.len(),
                        off + len <= encoded@.len(),
                        r@ == before + encoded@.subrange(off + start, off + i),
                    decreases end - i,
                {
                    r.push(encoded[off + i]);
                    assert(encoded@.subrange(off + start, off + i + 1) =~= encoded@.subrange(
                        off + start,
                        off + i,
                    ).push(encoded@[off + i]));
                    i = i + 1;
                }
            },
        }
        proof {
            let e = encoded@.take(off + len);
            assert(e.len() - c@.len() == off);
            assert(e.take(off as int) =~= encoded@.take(off as int));
            assert(parsed@.take(3 * (k + 1)).take(3 * k) =~= parsed@.take(3 * k));
            assert(parsed@.take(3 * (k + 1))[3 * k] == parsed@[3 * k]);
            assert(parsed@.take(3 * (k + 1))[3 * k + 1] == parsed@[3 * k + 1]);
            assert(parsed@.take(3 * (k + 1))[3 * k + 2] == parsed@[3 * k + 2]);
            assert(e.skip(off as int) =~= encoded@.subrange(off as int, off + len));
            if len > 0 {
                assert(encoded@.subrange(off as int, off + len).drop_last() =~= encoded@.subrange(
                    off as int,
                    off + len - 1,
                ));
                assert(encoded@.subrange(off as int, off + len).skip(1) =~= encoded@.subrange(
                    off + 1,
                    off + len,
                ));
            }
            if len > 1 {
                assert(encoded@.subrange(off as int, off + len - 1).skip(1) =~= encoded@.subrange(
                    off + 1,
                    off + len - 1,
                ));
            }
            assert(r@ =~= read_values(t, parsed@.take(3 * (k + 1)), e));
        }
        off = off + len;
    }
    assert(texts(ch@).take(n as int) =~= texts(ch@));
    assert(parsed@.take(3 * n) =~= parsed@);
    assert(encoded@.take(off as int) =~= encoded@);
    r
}

proof fn lemma_prefix_total_len(v: Seq<Seq<char>>, k: int)
    requires
        0 <= k <= v.len(),
    ensures
        total_len(v.take(k)) <= total_len(v),
    decreases v.len() - k,
{
    if k < v.len() {
        lemma_prefix_total_len(v, k + 1);
        lemma_total_len(v, k);
    } else {
        assert(v.take(k) =~= v);
    }
}

/// The numbers a line of input gives (the `,` instruction): chunk after
/// chunk, the chunk's value when it reads as a number, else the values of
/// its characters' code units, less the space or tab that ends it and less a
/// dropped leading `\`. Reading numbers
/// is left to the caller: `parsed` answers `input_number_queries(input)`
/// (three per chunk) and `encoded` gives the value of each code unit of
/// `input_code_units(input)`.
pub fn parseinput(input: &str, parsed: &Vec<Option<u64>>, encoded: &Vec<u64>) -> (r: Vec<u64>)
    requires
        parsed@.len() == 3 * chunks(input@).len(),
        encoded@.len() == input@.len(),
        input_readable(input@),
    ensures
        r@ == parse_input(input@, parsed@, encoded@),
{
    let cs = chars_of(input);
    let ch = split_chunks(cs.as_slice());
    proof {
        law_chunks_cover(input@);
        lemma_total_len_flatten(chunks(input@));
    }
    values_of(&ch, parsed, encoded)
}

} // verus!
