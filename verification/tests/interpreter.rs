use lib::machine::{Action, Event, Interpreter};
use lib::{FarError, Relation};

/// What running one line printed and how it ended.
struct Outcome {
    printed: Vec<String>,
    reported: Vec<String>,
    result: Result<(), String>,
    unimplemented: bool,
}

fn floats(v: &[u64]) -> Vec<f64> {
    v.iter().map(|b| f64::from_bits(*b)).collect()
}

fn apply(op: char, x: f64, y: f64) -> f64 {
    match op {
        '+' => x + y,
        '-' => x - y,
        '*' => x * y,
        '/' => x / y,
        '%' => x % y,
        '^' => x.powf(y),
        _ => panic!("this should not happen"),
    }
}

/// Runs one line, answering the machine's requests with `f64` arithmetic and
/// taking input lines from `inputs`.
fn run(interp: &mut Interpreter, line: &str, inputs: &mut Vec<Result<String, String>>) -> Outcome {
    interp.begin(line);
    let mut out = Outcome { printed: vec![], reported: vec![], result: Ok(()), unimplemented: false };
    let mut event = Event::Resume;
    for _ in 0..10_000 {
        assert!(interp.accepts(&event));
        let action = interp.step(event);
        event = match action {
            Action::Proceed => Event::Resume,
            Action::Print(s) => {
                out.printed.push(s);
                Event::Resume
            }
            Action::Report(e) => {
                out.reported.push(e.message());
                Event::Resume
            }
            Action::ReadInput => Event::Input(inputs.remove(0)),
            Action::Parse(v) => {
                Event::Parsed(v.iter().map(|s| s.parse::<f64>().ok().map(f64::to_bits)).collect())
            }
            Action::Apply(op, pairs) => Event::Values(
                pairs
                    .iter()
                    .map(|(x, y)| apply(op, f64::from_bits(*x), f64::from_bits(*y)).to_bits())
                    .collect(),
            ),
            Action::Compare(rel, v, p) => Event::Table(
                v.iter()
                    .map(|x| {
                        let x = f64::from_bits(*x);
                        p.iter()
                            .map(|q| {
                                let q = f64::from_bits(*q);
                                match rel {
                                    Relation::Equal => x == q,
                                    Relation::Greater => x > q,
                                    Relation::Less => x < q,
                                }
                            })
                            .collect()
                    })
                    .collect(),
            ),
            Action::Round(v) => Event::Values(v.iter().map(|b| f64::from_bits(*b).round().to_bits()).collect()),
            Action::Show(v) => Event::Texts(v.iter().map(|b| format!("{:?}", f64::from_bits(*b))).collect()),
            Action::Codes(v) => Event::Codes(v.iter().map(|b| f64::from_bits(*b) as i64).collect()),
            Action::Encode(v) => Event::Values(v.iter().map(|u| f64::from(*u).to_bits()).collect()),
            Action::Unimplemented => {
                out.unimplemented = true;
                return out;
            }
            Action::Done(r) => {
                out.result = r.map_err(|e| e.message());
                return out;
            }
        };
    }
    panic!("the line did not end");
}

fn run_fresh(line: &str) -> Outcome {
    let mut interp = Interpreter::new();
    run(&mut interp, line, &mut vec![])
}

fn buffer_of(interp: &Interpreter) -> Option<Vec<f64>> {
    interp.store().buffer.as_ref().map(|v| floats(v))
}

fn stack_of(interp: &Interpreter) -> Vec<Vec<f64>> {
    interp.store().stack.iter().map(|v| floats(v)).collect()
}

#[test]
fn hello_world_prints_text() {
    let out = run_fresh("72 101 108 108 111 44 32 119 111 114 108 100 33 $");
    assert_eq!(out.printed, vec!["Hello, world!".to_string()]);
    assert_eq!(out.result, Ok(()));
}

#[test]
fn numbers_are_printed_with_debug_and_spaces() {
    let out = run_fresh("1 2.5 -3 .");
    assert_eq!(out.printed, vec!["1.0 2.5 -3.0".to_string()]);
}

#[test]
fn numbers_fill_the_buffer_in_order() {
    let mut interp = Interpreter::new();
    run(&mut interp, "4 5 6", &mut vec![]);
    assert_eq!(buffer_of(&interp), Some(vec![4.0, 5.0, 6.0]));
    assert!(stack_of(&interp).is_empty());
    run(&mut interp, "7 8", &mut vec![]);
    assert_eq!(buffer_of(&interp), Some(vec![7.0, 8.0]));
}

#[test]
fn push_then_recall_is_last_in_first_out() {
    let mut interp = Interpreter::new();
    run(&mut interp, "1 ; 2 ;", &mut vec![]);
    assert_eq!(stack_of(&interp), vec![vec![1.0], vec![2.0]]);
    assert_eq!(buffer_of(&interp), None);
    run(&mut interp, "@", &mut vec![]);
    assert_eq!(buffer_of(&interp), Some(vec![2.0]));
    assert_eq!(stack_of(&interp), vec![vec![1.0]]);
}

#[test]
fn push_without_buffer_pushes_an_empty_array() {
    let mut interp = Interpreter::new();
    run(&mut interp, ";", &mut vec![]);
    assert_eq!(stack_of(&interp), vec![Vec::<f64>::new()]);
}

#[test]
fn duplicate_and_clear() {
    let mut interp = Interpreter::new();
    run(&mut interp, "1 2 ; :", &mut vec![]);
    assert_eq!(stack_of(&interp), vec![vec![1.0, 2.0], vec![1.0, 2.0]]);
    run(&mut interp, "~", &mut vec![]);
    assert!(stack_of(&interp).is_empty());
}

#[test]
fn scalar_arithmetic_maps_the_other_array() {
    let out = run_fresh("1 2 ; 10 + .");
    assert_eq!(out.printed, vec!["11.0 12.0".to_string()]);
    let out = run_fresh("10 ; 3 - .");
    assert_eq!(out.printed, vec!["7.0".to_string()]);
}

#[test]
fn elementwise_arithmetic_keeps_the_longer_tail() {
    let out = run_fresh("1 2 3 ; 10 20 + .");
    assert_eq!(out.printed, vec!["11.0 22.0 3.0".to_string()]);
    let out = run_fresh("1 2 ; 10 20 30 * .");
    assert_eq!(out.printed, vec!["10.0 40.0 30.0".to_string()]);
}

#[test]
fn arithmetic_on_two_stack_arrays_takes_top_first() {
    let mut interp = Interpreter::new();
    run(&mut interp, "2 2 ; 8 8 ; ^", &mut vec![]);
    assert_eq!(buffer_of(&interp), Some(vec![64.0, 64.0]));
    assert!(stack_of(&interp).is_empty());
}

#[test]
fn arithmetic_with_one_operand_copies_it() {
    let mut interp = Interpreter::new();
    run(&mut interp, "5 6 %", &mut vec![]);
    assert_eq!(buffer_of(&interp), Some(vec![5.0, 6.0]));
    let mut empty = Interpreter::new();
    run(&mut empty, "/", &mut vec![]);
    assert_eq!(buffer_of(&empty), None);
}

#[test]
fn concat_appends_buffer_to_top() {
    let out = run_fresh("1 2 ; 3 4 _ .");
    assert_eq!(out.printed, vec!["1.0 2.0 3.0 4.0".to_string()]);
    let out = run_fresh("1 ; 2 ; _ .");
    assert_eq!(out.printed, vec!["1.0 2.0".to_string()]);
}

#[test]
fn overlay_keeps_the_longer_tail() {
    let out = run_fresh("0 0 0 ; 1 # .");
    assert_eq!(out.printed, vec!["1.0 0.0 0.0".to_string()]);
    let out = run_fresh("0 0 0 ; 1 2 3 4 # .");
    assert_eq!(out.printed, vec!["1.0 2.0 3.0 4.0".to_string()]);
}

#[test]
fn overlay_of_two_stack_arrays_gives_the_newer_over_the_older() {
    let mut interp = Interpreter::new();
    run(&mut interp, "0 0 ; 1 2 3 ; #", &mut vec![]);
    assert_eq!(buffer_of(&interp), Some(vec![1.0, 2.0, 3.0]));
    assert!(stack_of(&interp).is_empty());
    let mut interp = Interpreter::new();
    run(&mut interp, "0 0 0 ; 1 ; #", &mut vec![]);
    assert_eq!(buffer_of(&interp), Some(vec![1.0, 0.0, 0.0]));
    assert!(stack_of(&interp).is_empty());
}

#[test]
fn split_keeps_the_last_element() {
    let out = run_fresh("1 2 3 | .");
    assert_eq!(out.printed, vec!["3.0".to_string()]);
}

#[test]
fn round_rounds_each_element() {
    let out = run_fresh("1.4 2.6 -0.5 o .");
    assert_eq!(out.printed, vec!["1.0 3.0 -1.0".to_string()]);
}

#[test]
fn filters_keep_matching_elements() {
    assert_eq!(run_fresh("1 2 3 4 ; 2 4 = .").printed, vec!["2.0 4.0".to_string()]);
    assert_eq!(run_fresh("1 2 3 4 ; 2 < .").printed, vec!["3.0 4.0".to_string()]);
    assert_eq!(run_fresh("1 2 3 4 ; 2 > .").printed, vec!["1.0".to_string()]);
}

#[test]
fn filter_with_nothing_kept_empties_the_buffer() {
    let mut interp = Interpreter::new();
    run(&mut interp, "1 2 ; 9 =", &mut vec![]);
    assert_eq!(buffer_of(&interp), None);
}

#[test]
fn filter_without_array_keeps_the_pattern() {
    let mut interp = Interpreter::new();
    run(&mut interp, "3 4 =", &mut vec![]);
    assert_eq!(buffer_of(&interp), Some(vec![3.0, 4.0]));
}

#[test]
fn skip_if_ends_the_line_on_a_non_empty_array() {
    let out = run_fresh("1 ! 5 .");
    assert!(out.printed.is_empty());
    assert_eq!(out.result, Ok(()));
    let out = run_fresh("; @ ! 5 .");
    assert_eq!(out.printed, vec!["5.0".to_string()]);
}

#[test]
fn comment_ends_the_code() {
    let out = run_fresh("1 2 . \" 3 4 .");
    assert_eq!(out.printed, vec!["1.0 2.0".to_string()]);
}

#[test]
fn reserved_inside_a_unit_is_refused() {
    let out = run_fresh("1 2+3 .");
    assert_eq!(
        out.result,
        Err("reserved commands cannot appear as postfix, prefix or infix: 2+3".to_string())
    );
    assert!(out.printed.is_empty());
}

#[test]
fn letters_are_refused() {
    let out = run_fresh("abc");
    assert_eq!(out.result, Err("non-reserved, non-numeric sequences aren't allowed: abc".to_string()));
}

#[test]
fn negative_and_decimal_numbers_are_accepted() {
    let mut interp = Interpreter::new();
    let out = run(&mut interp, "-1.5 .5", &mut vec![]);
    assert_eq!(out.result, Ok(()));
    assert_eq!(buffer_of(&interp), Some(vec![-1.5, 0.5]));
}

#[test]
fn units_that_are_no_number_are_ignored() {
    let mut interp = Interpreter::new();
    let out = run(&mut interp, "1 1.2.3 ` 2", &mut vec![]);
    assert_eq!(out.result, Ok(()));
    assert_eq!(buffer_of(&interp), Some(vec![1.0, 2.0]));
}

#[test]
fn bad_character_code_is_an_error() {
    let mut interp = Interpreter::new();
    let out = run(&mut interp, "300 $", &mut vec![]);
    assert_eq!(out.result, Err("invalid UTF-8 character code: 300".to_string()));
    assert_eq!(buffer_of(&interp), Some(vec![300.0]));
    let out = run_fresh("-1 $");
    assert_eq!(out.result, Err("invalid UTF-8 character code: -1".to_string()));
}

#[test]
fn loop_runs_until_break() {
    let mut interp = Interpreter::new();
    let out = run(&mut interp, "1 ; 2 ; ( @ . \\", &mut vec![]);
    assert_eq!(out.printed, vec!["2.0".to_string(), "1.0".to_string()]);
    assert!(out.reported.is_empty());
    assert_eq!(out.result, Err("break".to_string()));
}

#[test]
fn loop_does_not_start_without_data() {
    let out = run_fresh("( 1 .");
    assert!(out.printed.is_empty());
    assert_eq!(out.result, Ok(()));
}

#[test]
fn error_in_loop_is_reported_and_ends_the_loop() {
    let out = run_fresh("300 ( $");
    assert_eq!(out.reported, vec!["invalid UTF-8 character code: 300".to_string()]);
    assert_eq!(out.result, Err("invalid UTF-8 character code: 300".to_string()));
}

#[test]
fn conditional_is_not_implemented() {
    let out = run_fresh("1 ?");
    assert!(out.unimplemented);
}

#[test]
fn read_loads_numbers_and_codes() {
    let mut interp = Interpreter::new();
    let out = run(&mut interp, ", .", &mut vec![Ok("1 2 3".to_string())]);
    assert_eq!(out.printed, vec!["1.0 2.0 3.0".to_string()]);
    let out = run(&mut interp, ", $", &mut vec![Ok("hi".to_string())]);
    assert_eq!(out.printed, vec!["hi".to_string()]);
}

#[test]
fn read_does_not_keep_spaces() {
    let out = run(&mut Interpreter::new(), ", $", &mut vec![Ok("hello world".to_string())]);
    assert_eq!(out.printed, vec!["helloworld".to_string()]);
}

#[test]
fn read_appends_after_the_first_load() {
    let mut interp = Interpreter::new();
    run(&mut interp, "7 ,", &mut vec![Ok("8 9".to_string())]);
    assert_eq!(buffer_of(&interp), Some(vec![7.0, 8.0, 9.0]));
}

#[test]
fn read_drops_escaping_backslash() {
    let out = run(&mut Interpreter::new(), ", $", &mut vec![Ok("\\10".to_string())]);
    assert_eq!(out.printed, vec!["10".to_string()]);
    let out = run(&mut Interpreter::new(), ", $", &mut vec![Ok("\\\\10".to_string())]);
    assert_eq!(out.printed, vec!["\\10".to_string()]);
    let out = run(&mut Interpreter::new(), ", $", &mut vec![Ok("\\ab".to_string())]);
    assert_eq!(out.printed, vec!["\\ab".to_string()]);
}

#[test]
fn read_failure_ends_the_line() {
    let out = run(
        &mut Interpreter::new(),
        ", .",
        &mut vec![Err("unable to get input from stdin".to_string())],
    );
    assert_eq!(out.result, Err("unable to get input from stdin".to_string()));
}

#[test]
fn show_of_nothing_prints_nothing() {
    let out = run_fresh(". $");
    assert!(out.printed.is_empty());
    assert_eq!(out.result, Ok(()));
}

#[test]
fn results_never_go_onto_the_stack() {
    let mut interp = Interpreter::new();
    run(&mut interp, "1 ; 2 ; 3 ; 4", &mut vec![]);
    for line in ["+", "_", "#", "|", "o", "=", "<", ">", ".", "!"] {
        let before = stack_of(&interp).len();
        run(&mut interp, line, &mut vec![]);
        assert!(stack_of(&interp).len() <= before);
        run(&mut interp, "5 ;", &mut vec![]);
    }
}

#[test]
fn reset_empties_the_session() {
    let mut interp = Interpreter::new();
    run(&mut interp, "1 ; 2", &mut vec![]);
    interp.reset();
    assert!(stack_of(&interp).is_empty());
    assert_eq!(buffer_of(&interp), None);
}

#[test]
fn break_error_is_recognised() {
    assert!(FarError::Break.is_break());
    assert!(!FarError::BadCode(1).is_break());
    assert_eq!(FarError::BadCode(i64::MIN).message(), "invalid UTF-8 character code: -9223372036854775808");
    assert_eq!(FarError::Input("x".to_string()).message(), "x");
}

#[test]
fn a_line_without_push_leaves_a_bottom_part_of_the_stack() {
    let before = vec![vec![1.0], vec![2.0, 3.0], vec![4.0]];
    for line in ["5 + .", "_ 7 * .", "# | .", "9 8 7", "@ @ $"] {
        let mut interp = Interpreter::new();
        run(&mut interp, "1 ; 2 3 ; 4 ;", &mut vec![]);
        assert_eq!(stack_of(&interp), before);
        run(&mut interp, line, &mut vec![]);
        let after = stack_of(&interp);
        assert!(after.len() <= before.len());
        assert_eq!(after[..], before[..after.len()]);
    }
}
