use matrix_calc::calculator::Calculator;
use matrix_calc::parser::parse_input;

fn run(calc: &mut Calculator, line: &str) -> String {
    let pc = parse_input(line).unwrap();
    calc.interpret(pc)
}

#[test]
fn define_confirms_and_registers_a_zero_matrix() {
    let mut calc = Calculator::new();
    let reply = run(&mut calc, "define A 2x2");
    assert_eq!(reply, "Defined Matrix A as 2x2 matrix");
    let stored = calc.memory[0].as_ref().unwrap();
    assert_eq!(stored.rows, 2);
    assert_eq!(stored.cols, 2);
    assert_eq!(stored.data, vec![vec![0, 0], vec![0, 0]]);
}

#[test]
fn define_without_a_shape_pattern_defaults_to_zero_by_zero() {
    let mut calc = Calculator::new();
    assert_eq!(run(&mut calc, "define A something"), "Defined Matrix A as 0x0 matrix");
    assert_eq!(run(&mut calc, "define B 10x3"), "Defined Matrix B as 10x3 matrix");
    assert_eq!(run(&mut calc, "define C a12x34b"), "Defined Matrix C as 12x34 matrix");
}

#[test]
fn show_of_an_undefined_matrix_reports_not_found() {
    let mut calc = Calculator::new();
    run(&mut calc, "define A 2x2");
    assert_eq!(run(&mut calc, "show B"), "Matrix 'B' not found in memory.");
}

#[test]
fn define_fill_show_renders_the_values() {
    let mut calc = Calculator::new();
    run(&mut calc, "define A 2x2");
    assert_eq!(run(&mut calc, "fill A [[1,2][3,4]]"), "Populated Matrix A with data.");
    assert_eq!(run(&mut calc, "show A"), "| 1  2 |\n| 3  4 |\n");
}

#[test]
fn add_stores_and_renders_the_sum() {
    let mut calc = Calculator::new();
    run(&mut calc, "define A 2x2");
    run(&mut calc, "define B 2x2");
    run(&mut calc, "fill A [[1,1][1,1]]");
    run(&mut calc, "fill B [[2,2][2,2]]");
    assert_eq!(run(&mut calc, "add A B"), "| 3  3 |\n| 3  3 |\n");
    assert_eq!(calc.ans_mat.data, vec![vec![3, 3], vec![3, 3]]);
}

#[test]
fn unknown_command_replies_with_empty_text() {
    let mut calc = Calculator::new();
    assert_eq!(run(&mut calc, "frobnicate A"), "");
}

#[test]
fn define_ans_copies_the_last_result() {
    let mut calc = Calculator::new();
    run(&mut calc, "define A 1x2");
    run(&mut calc, "define B 1x2");
    run(&mut calc, "fill A [[4,5]]");
    run(&mut calc, "fill B [[6,7]]");
    run(&mut calc, "add A B");
    assert_eq!(run(&mut calc, "define C ans"), "Defined Matrix C as 1x2 matrix");
    assert_eq!(run(&mut calc, "show C"), "| 10 12|\n");
    assert_eq!(run(&mut calc, "define D AnS"), "Defined Matrix D as 1x2 matrix");
}

#[test]
fn fresh_calculator_defines_ans_as_one_by_one_zero() {
    let mut calc = Calculator::new();
    assert_eq!(run(&mut calc, "define A ans"), "Defined Matrix A as 1x1 matrix");
    assert_eq!(run(&mut calc, "show A"), "| 0 |\n");
}

#[test]
fn fill_of_an_undefined_matrix_reports_not_found() {
    let mut calc = Calculator::new();
    assert_eq!(run(&mut calc, "fill Z [[1]]"), "Matrix 'Z' not found in memory.");
}

#[test]
fn fill_reports_decode_failures() {
    let mut calc = Calculator::new();
    run(&mut calc, "define A 2x2");
    assert_eq!(
        run(&mut calc, "fill A [[1,2][3]]"),
        "Error parsing matrix data: Rows have inconsistent lengths."
    );
    assert_eq!(
        run(&mut calc, "fill A [[1.5,2][3,4]]"),
        "Error parsing matrix data: invalid number literal"
    );
}

#[test]
fn add_reports_missing_operands() {
    let mut calc = Calculator::new();
    assert_eq!(run(&mut calc, "add A B"), "Matrix 'A' not found in memory.");
    run(&mut calc, "define A 2x2");
    assert_eq!(run(&mut calc, "add A B"), "Matrix 'B' not found in memory.");
}

#[test]
fn add_reports_a_shape_mismatch() {
    let mut calc = Calculator::new();
    run(&mut calc, "define A 2x2");
    run(&mut calc, "define B 1x2");
    assert_eq!(
        run(&mut calc, "add A B"),
        "Matrices must have the same dimensions for addition."
    );
}

#[test]
fn command_aliases_share_one_behaviour() {
    let mut calc = Calculator::new();
    assert_eq!(run(&mut calc, "def A 2x2"), "Defined Matrix A as 2x2 matrix");
    assert_eq!(run(&mut calc, "populate A [[1,0][0,1]]"), "Populated Matrix A with data.");
    assert_eq!(run(&mut calc, "echo A"), "| 1  0 |\n| 0  1 |\n");
    run(&mut calc, "def B 2x2");
    run(&mut calc, "fill B [[1,1][1,1]]");
    assert_eq!(run(&mut calc, "sum A B"), "| 2  1 |\n| 1  2 |\n");
}

#[test]
fn fill_reconciles_the_recorded_shape_with_the_decoded_one() {
    let mut calc = Calculator::new();
    run(&mut calc, "define A 2x2");
    run(&mut calc, "fill A [[1,2,3]]");
    let stored = calc.memory[0].as_ref().unwrap();
    assert_eq!(stored.rows, 1);
    assert_eq!(stored.cols, 3);
    assert_eq!(run(&mut calc, "show A"), "| 1  2  3 |\n");
}
