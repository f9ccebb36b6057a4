//! From a line of FAR code to its units: the comment is cut off, the rest is
//! split at whitespace, and each unit is checked and read as an instruction.
use vstd::prelude::*;
use crate::text::{is_space, space, string_of, texts};
use crate::error::{FarError, Fault};

verus! {

/// The reserved characters: each one alone is an instruction.
pub open spec fn is_reserved(c: char) -> bool {
    ||| c == ';' || c == ':' || c == '~' || c == '@'
    ||| c == ',' || c == '.' || c == '$'
    ||| c == '+' || c == '-' || c == '*' || c == '/' || c == '^' || c == '%'
    ||| c == '=' || c == '<' || c == '>'
    ||| c == '_' || c == '#' || c == '|' || c == 'o'
    ||| c == '?' || c == '!' || c == '`'
    ||| c == '(' || c == '[' || c == '\\'
}

/// Tests `is_reserved`.
pub fn reserved(c: char) -> (r: bool)
    ensures
        r == is_reserved(c),
{
    c == ';' || c == ':' || c == '~' || c == '@' || c == ',' || c == '.' || c == '$' || c == '+'
        || c == '-' || c == '*' || c == '/' || c == '^' || c == '%' || c == '=' || c == '<' || c
        == '>' || c == '_' || c == '#' || c == '|' || c == 'o' || c == '?' || c == '!' || c == '`'
        || c == '(' || c == '[' || c == '\\'
}

/// An ASCII decimal digit.
pub open spec fn is_digit(c: char) -> bool {
    '0' <= c <= '9'
}

/// The length of the code part of a line: everything before the first `"`,
/// which starts a comment that runs to the end of the line.
pub open spec fn code_len(s: Seq<char>) -> nat
    decreases s.len(),
{
    if s.len() == 0 || s[0] == '"' {
        0
    } else {
        1 + code_len(s.drop_first())
    }
}

/// The code part of a line.
pub open spec fn code_part(s: Seq<char>) -> Seq<char> {
    s.take(code_len(s) as int)
}

/// Reading a string from the left while splitting at whitespace: the words
/// completed so far and the word still being read.
pub open spec fn split_state(s: Seq<char>) -> (Seq<Seq<char>>, Seq<char>)
    decreases s.len(),
{
    if s.len() == 0 {
        (seq![], seq![])
    } else {
        let (done, cur) = split_state(s.drop_last());
        if is_space(s.last()) {
            if cur.len() > 0 {
                (done.push(cur), seq![])
            } else {
                (done, seq![])
            }
        } else {
            (done, cur.push(s.last()))
        }
    }
}

/// `str::split_whitespace`: the maximal runs of non-whitespace characters.
pub open spec fn words(s: Seq<char>) -> Seq<Seq<char>> {
    let (done, cur) = split_state(s);
    if cur.len() > 0 {
        done.push(cur)
    } else {
        done
    }
}

/// The units of a line: the words of its code part.
pub open spec fn line_units(line: Seq<char>) -> Seq<Seq<char>> {
    words(code_part(line))
}

proof fn lemma_code_len(s: Seq<char>, i: int)
    requires
        0 <= i <= s.len(),
        forall|j: int| 0 <= j < i ==> #[trigger] s[j] != '"',
    ensures
        code_len(s) == i + code_len(s.skip(i)),
    decreases i,
{
    if i > 0 {
        lemma_code_len(s.drop_first(), i - 1);
        assert(s.drop_first().skip(i - 1) =~= s.skip(i));
    } else {
        assert(s.skip(0) =~= s);
    }
}

/// The code part of a line: the characters before the first `"`.
pub fn code_of(s: &[char]) -> (r: Vec<char>)
    ensures
        r@ == code_part(s@),
        forall|j: int| 0 <= j < r@.len() ==> #[trigger] r@[j] != '"',
{
    let n = s.len();
    let mut r: Vec<char> = Vec::new();
    let mut i: usize = 0;
    while i < n && s[i] != '"'
        invariant
            i <= n,
            n == s@.len(),
            r@ == s@.take(i as int),
            forall|j: int| 0 <= j < i ==> #[trigger] s@[j] != '"',
        decreases n - i,
    {
        r.push(s[i]);
        assert(s@.take(i + 1) =~= s@.take(i as int).push(s@[i as int]));
        i = i + 1;
    }
    proof {
        lemma_code_len(s@, i as int);
        let t = s@.skip(i as int);
        assert(t.len() == 0 || t[0] == '"');
        assert(code_len(t) == 0);
    }
    r
}

/// Splits at whitespace, as `str::split_whitespace` does.
pub fn split_words(s: &[char]) -> (r: Vec<Vec<char>>)
    ensures
        texts(r@) == words(s@),
{
    let n = s.len();
    let mut done: Vec<Vec<char>> = Vec::new();
    let mut cur: Vec<char> = Vec::new();
    for i in 0..n
        invariant
            n == s@.len(),
            (texts(done@), cur@) == split_state(s@.take(i as int)),
    {
        let ghost pre = s@.take(i as int);
        assert(s@.take(i + 1).drop_last() =~= pre);
        assert(s@.take(i + 1).last() == s@[i as int]);
        let c = s[i];
        if space(c) {
            if cur.len() > 0 {
                let ghost dv = texts(done@);
                let w = cur;
                done.push(w);
                assert(texts(done@) =~= dv.push(w@));
                cur = Vec::new();
            } else {
                cur = Vec::new();
            }
        } else {
            cur.push(c);
        }
    }
    assert(s@.take(n as int) =~= s@);
    if cur.len() > 0 {
        let ghost dv = texts(done@);
        let w = cur;
        done.push(w);
        assert(texts(done@) =~= dv.push(w@));
    }
    done
}

/// The units of a line of FAR code.
pub fn units_of(line: &str) -> (r: Vec<Vec<char>>)
    ensures
        texts(r@) == line_units(line@),
{
    let cs = crate::text::chars_of(line);
    let code = code_of(cs.as_slice());
    split_words(code.as_slice())
}

/// The character at `i` is reserved and stands inside a longer unit, where
/// only `.` and a leading `-` (parts of numbers) may stand.
pub open spec fn misplaced(u: Seq<char>, i: int) -> bool {
    &&& is_reserved(u[i])
    &&& u.len() > 1
    &&& u[i] != '.'
    &&& !(u[i] == '-' && i == 0)
}

/// The character at `i` is neither a digit nor reserved.
pub open spec fn foreign(u: Seq<char>, i: int) -> bool {
    !is_digit(u[i]) && !is_reserved(u[i])
}

/// The unit is refused because of its character at `i`.
pub open spec fn faulty_at(u: Seq<char>, i: int) -> bool {
    misplaced(u, i) || foreign(u, i)
}

/// The fault reported for the character at `i`.
pub open spec fn fault_at(u: Seq<char>, i: int) -> Fault {
    if misplaced(u, i) {
        Fault::Reserved(u)
    } else {
        Fault::Foreign(u)
    }
}

/// Whether a unit may be interpreted: `Ok` when no character is refused,
/// else the fault of the first refused character.
pub open spec fn unit_check(u: Seq<char>) -> Result<(), Fault> {
    if exists|i: int| 0 <= i < u.len() && faulty_at(u, i) {
        let i = choose|i: int|
            0 <= i < u.len() && faulty_at(u, i) && forall|j: int| 0 <= j < i ==> !faulty_at(u, j);
        Err(fault_at(u, i))
    } else {
        Ok(())
    }
}

proof fn lemma_first_fault(u: Seq<char>, i: int)
    requires
        0 <= i < u.len(),
        faulty_at(u, i),
        forall|j: int| 0 <= j < i ==> !faulty_at(u, j),
    ensures
        unit_check(u) == Err::<(), Fault>(fault_at(u, i)),
{
    let k = choose|k: int|
        0 <= k < u.len() && faulty_at(u, k) && forall|j: int| 0 <= j < k ==> !faulty_at(u, j);
    assert(0 <= k < u.len() && faulty_at(u, k) && forall|j: int| 0 <= j < k ==> !faulty_at(u, j));
    if k < i {
        assert(!faulty_at(u, k));
    }
    if i < k {
        assert(!faulty_at(u, i));
    }
}

/// Checks a unit: reserved characters may not stand inside a longer unit
/// (but for `.` and a leading `-`), and only digits and reserved characters
/// may stand at all.
pub fn check_unit(u: &Vec<char>) -> (r: Result<(), FarError>)
    ensures
        match r {
            Ok(()) => unit_check(u@) is Ok,
            Err(e) => unit_check(u@) == Err::<(), Fault>(e@),
        },
{
    let n = u.len();
    for i in 0..n
        invariant
            n == u@.len(),
            forall|j: int| 0 <= j < i ==> !faulty_at(u@, j),
    {
        let c = u[i];
        if reserved(c) && n > 1 {
            if c != '.' && !(c == '-' && i < 1) {
                proof {
                    lemma_first_fault(u@, i as int);
                }
                return Err(FarError::Reserved(string_of(u.as_slice())));
            }
        } else if !('0' <= c && c <= '9') && !reserved(c) && c != '.' {
            proof {
                lemma_first_fault(u@, i as int);
            }
            return Err(FarError::Foreign(string_of(u.as_slice())));
        }
    }
    Ok(())
}

/// Instructions cannot be used as prefixes, infixes or postfixes: a unit of
/// more than one character that holds a reserved character (other than `.`
/// or a leading `-`, which belong to numbers) is refused.
pub proof fn law_affixed_instructions_are_refused(u: Seq<char>, i: int)
    requires
        u.len() > 1,
        0 <= i < u.len(),
        is_reserved(u[i]),
        u[i] != '.',
        !(u[i] == '-' && i == 0),
    ensures
        unit_check(u) is Err,
{
    assert(faulty_at(u, i));
}

/// Only digits and reserved characters may stand in a unit: one that holds
/// any other character (a letter but `o`, say) is refused.
pub proof fn law_foreign_characters_are_refused(u: Seq<char>, i: int)
    requires
        0 <= i < u.len(),
        !is_digit(u[i]),
        !is_reserved(u[i]),
    ensures
        unit_check(u) is Err,
{
    assert(faulty_at(u, i));
}

/// A unit made of digits, dots and a leading minus sign is accepted.
pub proof fn law_number_units_are_accepted(u: Seq<char>)
    requires
        forall|i: int|
            0 <= i < u.len() ==> is_digit(#[trigger] u[i]) || u[i] == '.' || (u[i] == '-' && i
                == 0),
    ensures
        unit_check(u) is Ok,
{
    assert forall|i: int| 0 <= i < u.len() implies !faulty_at(u, i) by {
        assert(is_digit(u[i]) || u[i] == '.' || (u[i] == '-' && i == 0));
    }
}

proof fn lemma_split_state_solid(s: Seq<char>)
    ensures
        forall|k: int|
            0 <= k < split_state(s).0.len() ==> #[trigger] split_state(s).0[k].len() > 0,
        forall|k: int, j: int|
            0 <= k < split_state(s).0.len() && 0 <= j < split_state(s).0[k].len() ==> !is_space(
                #[trigger] split_state(s).0[k][j],
            ),
        forall|j: int| 0 <= j < split_state(s).1.len() ==> !is_space(#[trigger] split_state(s).1[j]),
        forall|k: int, j: int|
            0 <= k < split_state(s).0.len() && 0 <= j < split_state(s).0[k].len() ==> s.contains(
                #[trigger] split_state(s).0[k][j],
            ),
        forall|j: int| 0 <= j < split_state(s).1.len() ==> s.contains(#[trigger] split_state(s).1[j]),
    decreases s.len(),
{
    if s.len() > 0 {
        let p = s.drop_last();
        lemma_split_state_solid(p);
        let (done, cur) = split_state(p);
        assert forall|c: char| p.contains(c) implies s.contains(c) by {
            let j = choose|j: int| 0 <= j < p.len() && p[j] == c;
            assert(s[j] == c);
        }
        assert(s.contains(s.last())) by {
            assert(s[s.len() - 1] == s.last());
        }
        let (d2, c2) = split_state(s);
        if is_space(s.last()) {
            if cur.len() > 0 {
                assert forall|k: int, j: int|
                    0 <= k < d2.len() && 0 <= j < d2[k].len() implies !is_space(#[trigger] d2[k][j])
                    && s.contains(d2[k][j]) by {
                    if k < done.len() {
                        assert(d2[k] == done[k]);
                    } else {
                        assert(d2[k] == cur);
                    }
                }
            }
        } else {
            assert forall|j: int| 0 <= j < c2.len() implies !is_space(#[trigger] c2[j]) && s.contains(
                c2[j],
            ) by {
                if j < cur.len() {
                    assert(c2[j] == cur[j]);
                } else {
                    assert(c2[j] == s.last());
                }
            }
        }
    }
}

/// A line is split into units at whitespace, up to the start of a comment:
/// each unit is non-empty, holds no whitespace, and holds no `"`.
pub proof fn law_units_are_words_of_code(line: Seq<char>)
    ensures
        forall|k: int| 0 <= k < line_units(line).len() ==> #[trigger] line_units(line)[k].len() > 0,
        forall|k: int, j: int|
            0 <= k < line_units(line).len() && 0 <= j < line_units(line)[k].len() ==> !is_space(
                #[trigger] line_units(line)[k][j],
            ) && line_units(line)[k][j] != '"',
{
    let code = code_part(line);
    lemma_split_state_solid(code);
    lemma_code_part_has_no_quote(line);
    let (done, cur) = split_state(code);
    let w = line_units(line);
    assert forall|k: int, j: int|
        0 <= k < w.len() && 0 <= j < w[k].len() implies !is_space(#[trigger] w[k][j]) && w[k][j]
        != '"' by {
        if k < done.len() {
            assert(w[k] == done[k]);
            assert(code.contains(done[k][j]));
        } else {
            assert(w[k] == cur);
            assert(code.contains(cur[j]));
        }
    }
    assert forall|k: int| 0 <= k < w.len() implies #[trigger] w[k].len() > 0 by {
        if k < done.len() {
            assert(w[k] == done[k]);
        }
    }
}

proof fn lemma_code_len_bound(s: Seq<char>)
    ensures
        code_len(s) <= s.len(),
        forall|j: int| 0 <= j < code_len(s) ==> #[trigger] s[j] != '"',
    decreases s.len(),
{
    if s.len() > 0 && s[0] != '"' {
        lemma_code_len_bound(s.drop_first());
        assert forall|j: int| 0 <= j < code_len(s) implies #[trigger] s[j] != '"' by {
            if j > 0 {
                assert(s[j] == s.drop_first()[j - 1]);
            }
        }
    }
}

proof fn lemma_code_part_has_no_quote(s: Seq<char>)
    ensures
        !code_part(s).contains('"'),
{
    lemma_code_len_bound(s);
    let c = code_part(s);
    if c.contains('"') {
        let j = choose|j: int| 0 <= j < c.len() && c[j] == '"';
        assert(s[j] == '"');
    }
}

/// The comparison by which a filter keeps an element.
#[derive(Clone, Copy, PartialEq, Eq, Debug)]
pub enum Relation {
    /// `=`: the element equals some element of the pattern.
    Equal,
    /// `<`: the element is greater than some element of the pattern.
    Greater,
    /// `>`: the element is less than some element of the pattern.
    Less,
}

/// What a unit tells the interpreter to do.
#[derive(Clone, Copy, PartialEq, Eq, Debug)]
pub enum Command {
    /// `;` pushes the buffer (or an empty array) onto the stack.
    Push,
    /// `:` pushes a copy of the top of the stack.
    Duplicate,
    /// `~` empties the stack.
    Clear,
    /// `@` pops the stack into the buffer.
    Recall,
    /// `.` prints an array as numbers.
    Show,
    /// `$` prints an array as text.
    Write,
    /// `,` loads a line of input.
    Read,
    /// `?` (not implemented).
    Conditional,
    /// `!` skips the rest of the line when an array is not empty.
    SkipIf,
    /// `+ - * / ^ %`: element-wise arithmetic.
    Arith(char),
    /// `_` concatenates.
    Concat,
    /// `#` lays one array over another.
    Overlay,
    /// `|` separates the last element.
    Split,
    /// `o` rounds.
    Round,
    /// `= < >` filter.
    Filter(Relation),
    /// `(` repeats the rest of the line.
    Loop,
    /// `\` leaves a loop.
    Break,
    /// Anything else is read as a number, if it is one.
    Number,
}

/// The instruction of a unit.
pub open spec fn command_of(u: Seq<char>) -> Command {
    if u.len() != 1 {
        Command::Number
    } else {
        let c = u[0];
        if c == ';' {
            Command::Push
        } else if c == ':' {
            Command::Duplicate
        } else if c == '~' {
            Command::Clear
        } else if c == '@' {
            Command::Recall
        } else if c == '.' {
            Command::Show
        } else if c == '$' {
            Command::Write
        } else if c == ',' {
            Command::Read
        } else if c == '?' {
            Command::Conditional
        } else if c == '!' {
            Command::SkipIf
        } else if c == '+' || c == '-' || c == '*' || c == '/' || c == '^' || c == '%' {
            Command::Arith(c)
        } else if c == '_' {
            Command::Concat
        } else if c == '#' {
            Command::Overlay
        } else if c == '|' {
            Command::Split
        } else if c == 'o' {
            Command::Round
        } else if c == '=' {
            Command::Filter(Relation::Equal)
        } else if c == '<' {
            Command::Filter(Relation::Greater)
        } else if c == '>' {
            Command::Filter(Relation::Less)
        } else if c == '(' {
            Command::Loop
        } else if c == '\\' {
            Command::Break
        } else {
            Command::Number
        }
    }
}

/// Reads the instruction of a unit.
pub fn command(u: &Vec<char>) -> (r: Command)
    ensures
        r == command_of(u@),
{
    if u.len() != 1 {
        Command::Number
    } else {
        let c = u[0];
        if c == ';' {
            Command::Push
        } else if c == ':' {
            Command::Duplicate
        } else if c == '~' {
            Command::Clear
        } else if c == '@' {
            Command::Recall
        } else if c == '.' {
            Command::Show
        } else if c == '$' {
            Command::Write
        } else if c == ',' {
            Command::Read
        } else if c == '?' {
            Command::Conditional
        } else if c == '!' {
            Command::SkipIf
        } else if c == '+' || c == '-' || c == '*' || c == '/' || c == '^' || c == '%' {
            Command::Arith(c)
        } else if c == '_' {
            Command::Concat
        } else if c == '#' {
            Command::Overlay
        } else if c == '|' {
            Command::Split
        } else if c == 'o' {
            Command::Round
        } else if c == '=' {
            Command::Filter(Relation::Equal)
        } else if c == '<' {
            Command::Filter(Relation::Greater)
        } else if c == '>' {
            Command::Filter(Relation::Less)
        } else if c == '(' {
            Command::Loop
        } else if c == '\\' {
            Command::Break
        } else {
            Command::Number
        }
    }
}

/// The character that spells an instruction (a number has none of its own:
/// it is spelled by a space).
pub open spec fn spelling(c: Command) -> char {
    match c {
        Command::Push => ';',
        Command::Duplicate => ':',
        Command::Clear => '~',
        Command::Recall => '@',
        Command::Show => '.',
        Command::Write => '$',
        Command::Read => ',',
        Command::Conditional => '?',
        Command::SkipIf => '!',
        Command::Arith(op) => op,
        Command::Concat => '_',
        Command::Overlay => '#',
        Command::Split => '|',
        Command::Round => 'o',
        Command::Filter(Relation::Equal) => '=',
        Command::Filter(Relation::Greater) => '<',
        Command::Filter(Relation::Less) => '>',
        Command::Loop => '(',
        Command::Break => '\\',
        Command::Number => ' ',
    }
}

/// A unit of one character that is an instruction names the instruction
/// spelled by that very character, so that no two characters name the same
/// instruction; each arithmetic character names the operation of that
/// character; and an instruction standing alone passes the check of units.
pub proof fn law_each_instruction_is_spelled_by_its_character(c: char)
    ensures
        command_of(seq![c]) !is Number ==> spelling(command_of(seq![c])) == c,
        (c == '+' || c == '-' || c == '*' || c == '/' || c == '^' || c == '%') ==> command_of(seq![c])
            == Command::Arith(c),
        is_reserved(c) ==> unit_check(seq![c]) is Ok,
{
    if is_reserved(c) {
        assert(!exists|i: int| 0 <= i < seq![c].len() && faulty_at(seq![c], i)) by {
            assert forall|i: int| 0 <= i < seq![c].len() implies !faulty_at(seq![c], i) by {
                assert(seq![c][i] == c);
            }
        }
    }
}

} // verus!
