use lib::console::{classify, LineKind};
use lib::input::{input_code_units, input_number_queries, parseinput, readable};
use lib::output::{prettyformat, tryconvert};
use lib::store::Store;
use lib::text::{chars_of, decimal_of, string_of, trimmed};
use lib::token::{check_unit, command, units_of, Command, Relation};
use lib::vector::{filter, vecop, vecop_pairs};
use lib::FarError;

fn text(v: &[char]) -> String {
    v.iter().collect()
}

fn chars(s: &str) -> Vec<char> {
    s.chars().collect()
}

#[test]
fn units_split_at_whitespace_before_the_comment() {
    let u = units_of("  1 2\t;\u{3000}. \" 3 4");
    let u: Vec<String> = u.iter().map(|w| text(w)).collect();
    assert_eq!(u, vec!["1", "2", ";", "."]);
    assert!(units_of("\" only a comment").is_empty());
    assert!(units_of("").is_empty());
}

#[test]
fn unit_check_accepts_numbers_and_lone_commands() {
    for u in ["12", "-3", "1.5", "..", "+", "o", "(", "\\"] {
        assert!(check_unit(&chars(u)).is_ok(), "{}", u);
    }
}

#[test]
fn unit_check_reports_the_first_fault() {
    match check_unit(&chars("5-")) {
        Err(FarError::Reserved(u)) => assert_eq!(u, "5-"),
        _ => panic!("expected a reserved-character fault"),
    }
    match check_unit(&chars("x+")) {
        Err(FarError::Foreign(u)) => assert_eq!(u, "x+"),
        _ => panic!("expected a foreign-character fault"),
    }
    match check_unit(&chars("+x")) {
        Err(FarError::Reserved(u)) => assert_eq!(u, "+x"),
        _ => panic!("expected a reserved-character fault"),
    }
    match check_unit(&chars("oo")) {
        Err(FarError::Reserved(_)) => {}
        _ => panic!("expected a reserved-character fault"),
    }
}

#[test]
fn commands_are_read_from_single_characters() {
    assert_eq!(command(&chars(";")), Command::Push);
    assert_eq!(command(&chars("^")), Command::Arith('^'));
    assert_eq!(command(&chars("<")), Command::Filter(Relation::Greater));
    assert_eq!(command(&chars(">")), Command::Filter(Relation::Less));
    assert_eq!(command(&chars("=")), Command::Filter(Relation::Equal));
    assert_eq!(command(&chars("[")), Command::Number);
    assert_eq!(command(&chars("12")), Command::Number);
}

#[test]
fn prettyformat_joins_with_spaces_and_trims() {
    let items = vec!["1.0".to_string(), "2.5".to_string(), "-3.0".to_string()];
    assert_eq!(prettyformat(items), "1.0 2.5 -3.0");
    assert_eq!(prettyformat(vec![]), "");
    assert_eq!(prettyformat(vec![" a".to_string(), "b ".to_string()]), "a b");
}

#[test]
fn tryconvert_reads_bytes_as_characters() {
    match tryconvert(vec![72, 105, 233]) {
        Ok(s) => assert_eq!(s, "Hi\u{e9}"),
        Err(_) => panic!("expected text"),
    }
    match tryconvert(vec![]) {
        Ok(s) => assert_eq!(s, ""),
        Err(_) => panic!("expected text"),
    }
}

#[test]
fn tryconvert_stops_at_the_first_non_byte() {
    match tryconvert(vec![65, 256, -5]) {
        Err(e) => assert_eq!(e.message(), "invalid UTF-8 character code: 256"),
        Ok(_) => panic!("expected an error"),
    }
}

#[test]
fn parseinput_takes_numbers_and_codes() {
    let input = "12 ab\t\\3";
    let queries = input_number_queries(input);
    assert_eq!(queries, vec!["12", "2 ", " ", "ab", "b\t", "\t", "\\3", "3", ""]);
    let parsed: Vec<Option<u64>> = queries.iter().map(|s| s.parse::<f64>().ok().map(f64::to_bits)).collect();
    let codes = input_code_units(input);
    assert_eq!(codes.len(), 8);
    let encoded: Vec<u64> = codes.iter().map(|u| f64::from(*u).to_bits()).collect();
    let values: Vec<f64> = parseinput(input, &parsed, &encoded).iter().map(|b| f64::from_bits(*b)).collect();
    assert_eq!(values, vec![12.0, 97.0, 98.0, 51.0]);
}

fn read_line_of_input(input: &str) -> Vec<f64> {
    let parsed: Vec<Option<u64>> =
        input_number_queries(input).iter().map(|s| s.parse::<f64>().ok().map(f64::to_bits)).collect();
    let encoded: Vec<u64> = input_code_units(input).iter().map(|u| f64::from(*u).to_bits()).collect();
    parseinput(input, &parsed, &encoded).iter().map(|b| f64::from_bits(*b)).collect()
}

#[test]
fn parseinput_does_not_keep_spaces() {
    assert_eq!(read_line_of_input("a b"), vec![97.0, 98.0]);
    assert_eq!(read_line_of_input("a  b\t"), vec![97.0, 98.0]);
    assert_eq!(read_line_of_input("a b\\t"), vec![97.0, 98.0, 92.0, 116.0]);
    assert_eq!(read_line_of_input("hi 5 "), vec![104.0, 105.0, 5.0]);
}

#[test]
fn readable_refuses_a_backslash_before_a_wide_character() {
    assert!(readable("a \\b"));
    assert!(!readable("a \\\u{e9}"));
    assert!(readable("a\\\u{e9}"));
}

#[test]
fn code_units_are_truncated_to_sixteen_bits() {
    assert_eq!(input_code_units("A\u{1F600}"), vec![65, 0xF600]);
}

#[test]
fn vecop_pairs_and_results() {
    let one = Some(vec![7u64]);
    let three = Some(vec![1u64, 2, 3]);
    assert_eq!(vecop_pairs(&one, &three), vec![(1, 7), (2, 7), (3, 7)]);
    assert_eq!(vecop_pairs(&three, &one), vec![(1, 7), (2, 7), (3, 7)]);
    let two = Some(vec![10u64, 20]);
    assert_eq!(vecop_pairs(&two, &three), vec![(10, 1), (20, 2)]);
    assert_eq!(vecop(two.clone(), three.clone(), vec![100, 200]), Some(vec![100, 200, 3]));
    assert_eq!(vecop(three.clone(), None, vec![]), Some(vec![1, 2, 3]));
    assert_eq!(vecop(None, None, vec![]), None);
    assert!(vecop_pairs(&None, &three).is_empty());
}

#[test]
fn filter_keeps_rows_with_a_true_entry() {
    let v = vec![1u64, 2, 3];
    let t = vec![vec![false, false], vec![false, true], vec![true, true]];
    assert_eq!(filter(&v, &t), vec![2, 3]);
}

#[test]
fn console_commands_are_recognised() {
    assert_eq!(classify("#q"), LineKind::Quit);
    assert_eq!(classify("#quit"), LineKind::Quit);
    assert_eq!(classify("#s"), LineKind::Stats);
    assert_eq!(classify("#stats"), LineKind::Stats);
    assert_eq!(classify("#cls"), LineKind::ClearScreen);
    assert_eq!(classify("#c"), LineKind::ClearScreen);
    assert_eq!(classify("#clear"), LineKind::ClearScreen);
    assert_eq!(classify("#r"), LineKind::Reset);
    assert_eq!(classify("#reset"), LineKind::Reset);
    assert_eq!(classify("#quitx"), LineKind::Code);
    assert_eq!(classify("1 2 ."), LineKind::Code);
}

#[test]
fn text_helpers() {
    assert_eq!(chars_of("a\u{e9}"), vec!['a', '\u{e9}']);
    assert_eq!(string_of(&['x', 'y']), "xy");
    assert_eq!(text(&trimmed(&chars("\t a b \u{a0}"))), "a b");
    assert_eq!(text(&decimal_of(0)), "0");
    assert_eq!(text(&decimal_of(-42)), "-42");
    assert_eq!(text(&decimal_of(i64::MAX)), "9223372036854775807");
}

#[test]
fn store_instructions() {
    let mut s = Store::new();
    s.load(vec![1, 2], true);
    s.load(vec![3], false);
    assert_eq!(s.buffer, Some(vec![1, 2, 3]));
    s.push();
    assert_eq!(s.stack, vec![vec![1, 2, 3]]);
    s.duplicate();
    s.concat();
    assert_eq!(s.buffer, Some(vec![1, 2, 3, 1, 2, 3]));
    assert!(s.stack.is_empty());
    s.split();
    assert_eq!(s.buffer, Some(vec![3]));
    assert!(s.skip_test());
    assert_eq!(s.buffer, None);
    assert!(s.blocked());
}

#[test]
fn codes_of_latin1_text_convert_back() {
    let t = "H\u{e9}!\u{ff}";
    let codes: Vec<i64> = t.chars().map(|c| c as u32 as i64).collect();
    match tryconvert(codes) {
        Ok(s) => assert_eq!(s, t),
        Err(_) => panic!("expected text"),
    }
}

#[test]
fn units_hold_no_whitespace_and_no_quote() {
    for line in ["1\u{2003}2\u{85}3", "a\"b c", " ; : ~ "] {
        for u in units_of(line) {
            assert!(!u.is_empty());
            assert!(u.iter().all(|c| !c.is_whitespace() && *c != '"'));
        }
    }
}
