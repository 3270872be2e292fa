use logo_turtle::ast::ASTNode;
use logo_turtle::error::LogoError;
use logo_turtle::executor::{Command, Executor};
use logo_turtle::manager::Manager;
use logo_turtle::lexer::LexerFactory;
use logo_turtle::parser::{parse_program_lines, Parser};

struct Recorder {
    calls: Vec<Command>,
    queries: usize,
    x: i64,
    y: i64,
    heading: i64,
    color: u32,
}

impl Recorder {
    fn new() -> Recorder {
        Recorder { calls: Vec::new(), queries: 0, x: 50, y: 60, heading: 0, color: 7 }
    }
}

impl Executor for Recorder {
    fn pen_up(&mut self) {
        self.calls.push(Command::PenUp);
    }
    fn pen_down(&mut self) {
        self.calls.push(Command::PenDown);
    }
    fn foreward(&mut self, pixel: i64) {
        self.calls.push(Command::Forward(pixel));
    }
    fn back(&mut self, pixel: i64) {
        self.calls.push(Command::Back(pixel));
    }
    fn left(&mut self, pixel: i64) {
        self.calls.push(Command::Left(pixel));
    }
    fn right(&mut self, pixel: i64) {
        self.calls.push(Command::Right(pixel));
    }
    fn set_color(&mut self, color: u32) {
        self.color = color;
        self.calls.push(Command::SetColor(color));
    }
    fn turn(&mut self, degree: i64) {
        self.calls.push(Command::Turn(degree));
    }
    fn set_heading(&mut self, degree: i64) {
        self.heading = degree;
        self.calls.push(Command::SetHeading(degree));
    }
    fn set_x_coordinate(&mut self, pixel: i64) {
        self.x = pixel;
        self.calls.push(Command::SetX(pixel));
    }
    fn set_y_coordinate(&mut self, pixel: i64) {
        self.y = pixel;
        self.calls.push(Command::SetY(pixel));
    }
    fn get_x_coordinate(&self) -> i64 {
        self.x
    }
    fn get_y_coordinate(&self) -> i64 {
        self.y
    }
    fn get_heading(&self) -> i64 {
        self.heading
    }
    fn get_color(&self) -> u32 {
        self.color
    }
}

fn lines(src: &[&str]) -> Vec<String> {
    src.iter().map(|s| s.to_string()).collect()
}

fn run_with_fuel(src: &[&str], fuel: u64) -> (Result<(), LogoError>, Manager, Recorder) {
    let mut rec = Recorder::new();
    let mut m = Manager::new();
    let (nodes, procs) = match parse_program_lines(lines(src)) {
        Ok(p) => p,
        Err(e) => return (Err(e), m, rec),
    };
    let r = m.run_block(&nodes, &mut rec, &procs, fuel);
    (r, m, rec)
}

fn run(src: &[&str]) -> (Result<(), LogoError>, Manager, Recorder) {
    run_with_fuel(src, u64::MAX)
}

fn parse_error(src: &[&str]) -> LogoError {
    match parse_program_lines(lines(src)) {
        Ok(_) => panic!("expected a parse error"),
        Err(e) => e,
    }
}

#[test]
fn single_literal_primitives_invoke_one_operation() {
    let cases: Vec<(&str, Command)> = vec![
        ("FORWARD \"5", Command::Forward(5)),
        ("BACK \"12", Command::Back(12)),
        ("LEFT \"3", Command::Left(3)),
        ("RIGHT \"-4", Command::Right(-4)),
        ("SETPENCOLOR \"3", Command::SetColor(3)),
        ("TURN \"90", Command::Turn(90)),
        ("SETHEADING \"180", Command::SetHeading(180)),
        ("SETX \"7", Command::SetX(7)),
        ("SETY \"8", Command::SetY(8)),
    ];
    for (line, expected) in cases {
        let (r, _, rec) = run(&[line]);
        assert!(r.is_ok(), "{}", line);
        assert_eq!(rec.calls, vec![expected], "{}", line);
    }
}

#[test]
fn pen_primitives() {
    let (r, _, rec) = run(&["PENDOWN", "PENUP"]);
    assert!(r.is_ok());
    assert_eq!(rec.calls, vec![Command::PenDown, Command::PenUp]);
}

#[test]
fn operand_order_is_kept() {
    let (r, m, _) = run(&[
        "MAKE \"a - \"10 \"3",
        "MAKE \"b / \"10 \"2",
        "MAKE \"c GT \"10 \"3",
        "MAKE \"d GT \"3 \"10",
        "MAKE \"e - \"3 \"10",
        "MAKE \"f LT \"3 \"10",
    ]);
    assert!(r.is_ok());
    assert_eq!(m.get_variable_val("a"), Some(7));
    assert_eq!(m.get_variable_val("b"), Some(5));
    assert_eq!(m.get_variable_val("c"), Some(1));
    assert_eq!(m.get_variable_val("d"), Some(0));
    assert_eq!(m.get_variable_val("e"), Some(-7));
    assert_eq!(m.get_variable_val("f"), Some(1));
}

#[test]
fn all_operators() {
    let (r, m, _) = run(&[
        "MAKE \"eq EQ \"4 \"4",
        "MAKE \"ne NE \"4 \"4",
        "MAKE \"and AND \"1 \"0",
        "MAKE \"or OR \"1 \"0",
        "MAKE \"add + \"4 \"5",
        "MAKE \"mul * \"4 \"5",
        "MAKE \"div / \"-7 \"2",
        "MAKE \"nested + * \"2 \"3 \"4",
    ]);
    assert!(r.is_ok());
    assert_eq!(m.get_variable_val("eq"), Some(1));
    assert_eq!(m.get_variable_val("ne"), Some(0));
    assert_eq!(m.get_variable_val("and"), Some(0));
    assert_eq!(m.get_variable_val("or"), Some(1));
    assert_eq!(m.get_variable_val("add"), Some(9));
    assert_eq!(m.get_variable_val("mul"), Some(20));
    assert_eq!(m.get_variable_val("div"), Some(-3));
    assert_eq!(m.get_variable_val("nested"), Some(10));
}

#[test]
fn make_then_increment() {
    let (r, m, _) = run(&["MAKE \"x \"5", "ADDASSIGN \"x \"3"]);
    assert!(r.is_ok());
    assert_eq!(m.get_variable_val("x"), Some(8));
}

#[test]
fn while_counts_down() {
    let (r, m, _) = run(&["MAKE \"x \"3", "WHILE NE :x \"0 [", "ADDASSIGN \"x \"-1", "]"]);
    assert!(r.is_ok());
    assert_eq!(m.get_variable_val("x"), Some(0));
}

#[test]
fn while_runs_block_three_times() {
    let (r, m, rec) = run(&[
        "MAKE \"x \"3",
        "WHILE NE :x \"0 [",
        "ADDASSIGN \"x \"-1",
        "FORWARD \"1",
        "]",
    ]);
    assert!(r.is_ok());
    assert_eq!(m.get_variable_val("x"), Some(0));
    assert_eq!(rec.calls, vec![Command::Forward(1); 3]);
}

#[test]
fn if_runs_once_or_not_at_all() {
    let (r, _, rec) = run(&["IF \"TRUE [", "FORWARD \"1", "]", "IF \"FALSE [", "FORWARD \"2", "]"]);
    assert!(r.is_ok());
    assert_eq!(rec.calls, vec![Command::Forward(1)]);
}

#[test]
fn nested_blocks() {
    let (r, _, rec) = run(&[
        "MAKE \"i \"2",
        "WHILE GT :i \"0 [",
        "IF EQ :i \"1 [",
        "FORWARD :i",
        "]",
        "ADDASSIGN \"i \"-1",
        "]",
    ]);
    assert!(r.is_ok());
    assert_eq!(rec.calls, vec![Command::Forward(1)]);
}

#[test]
fn zero_arity_procedure_twice_gives_same_calls() {
    let (r, _, rec) = run(&["TO square", "FORWARD \"10", "RIGHT \"90", "END", "square", "square"]);
    assert!(r.is_ok());
    assert_eq!(rec.calls.len(), 4);
    assert_eq!(rec.calls[0..2], rec.calls[2..4]);
    assert_eq!(rec.calls[0..2], [Command::Forward(10), Command::Right(90)]);
}

#[test]
fn parameter_shadowing_restores_global() {
    let (r, m, rec) = run(&["MAKE \"a \"1", "TO f \"a", "FORWARD :a", "MAKE \"a \"99", "END", "f \"7"]);
    assert!(r.is_ok());
    assert_eq!(rec.calls, vec![Command::Forward(7)]);
    assert_eq!(m.get_variable_val("a"), Some(1));
}

#[test]
fn parameter_without_global_is_removed() {
    let (r, m, _) = run(&["TO f \"p", "MAKE \"q :p", "END", "f \"4"]);
    assert!(r.is_ok());
    assert_eq!(m.get_variable_val("p"), None);
    assert_eq!(m.get_variable_val("q"), Some(4));
}

#[test]
fn parameters_bind_in_declared_order() {
    let (r, _, rec) = run(&["TO f \"a \"b", "FORWARD - :a :b", "END", "f \"10 \"3"]);
    assert!(r.is_ok());
    assert_eq!(rec.calls, vec![Command::Forward(7)]);
}

#[test]
fn recursion_through_procedure() {
    let (r, _, rec) = run(&[
        "TO down \"n",
        "IF GT :n \"0 [",
        "FORWARD :n",
        "down - :n \"1",
        "]",
        "END",
        "down \"3",
    ]);
    assert!(r.is_ok());
    assert_eq!(rec.calls, vec![Command::Forward(3), Command::Forward(2), Command::Forward(1)]);
}

#[test]
fn queries_read_the_collaborator() {
    let (r, m, _) = run(&["SETX \"11", "MAKE \"x XCOR", "MAKE \"y YCOR", "MAKE \"c COLOR", "MAKE \"h HEADING"]);
    assert!(r.is_ok());
    assert_eq!(m.get_variable_val("x"), Some(11));
    assert_eq!(m.get_variable_val("y"), Some(60));
    assert_eq!(m.get_variable_val("c"), Some(7));
    assert_eq!(m.get_variable_val("h"), Some(0));
}

#[test]
fn comments_and_blank_lines_are_skipped() {
    let (r, _, rec) = run(&["// a comment", "", "   ", "FORWARD \"2"]);
    assert!(r.is_ok());
    assert_eq!(rec.calls, vec![Command::Forward(2)]);
}

#[test]
fn forward_without_argument() {
    match parse_error(&["FORWARD"]) {
        LogoError::NoEnoughArguments(line, cmd) => {
            assert_eq!(line, 1);
            assert_eq!(cmd, "FORWARD");
        }
        e => panic!("{:?}", e),
    }
}

#[test]
fn if_without_bracket() {
    match parse_error(&["", "IF \"1"]) {
        LogoError::UnvalidIfOrWhile(line) => assert_eq!(line, 2),
        e => panic!("{:?}", e),
    }
}

#[test]
fn unterminated_block() {
    match parse_error(&["WHILE \"1 [", "FORWARD \"1"]) {
        LogoError::UnvalidIfOrWhile(line) => assert_eq!(line, 2),
        e => panic!("{:?}", e),
    }
}

#[test]
fn undefined_variable_in_expression() {
    let (r, _, rec) = run(&["FORWARD :nope"]);
    match r {
        Err(LogoError::UnDefinedVariable(name)) => assert_eq!(name, "nope"),
        other => panic!("{:?}", other),
    }
    assert!(rec.calls.is_empty());
}

#[test]
fn increment_of_unbound_variable() {
    let (r, _, _) = run(&["ADDASSIGN \"x \"1"]);
    assert!(matches!(r, Err(LogoError::UnDefinedVariable(_))));
}

#[test]
fn division_by_zero_fails() {
    let (r, _, rec) = run(&["FORWARD / \"1 \"0"]);
    assert!(matches!(r, Err(LogoError::DivisionByZero)));
    assert!(rec.calls.is_empty());
}

#[test]
fn too_many_arguments() {
    match parse_error(&["PENUP \"1"]) {
        LogoError::TooManyArguments(line, cmd) => {
            assert_eq!(line, 1);
            assert_eq!(cmd, "PENUP");
        }
        e => panic!("{:?}", e),
    }
    assert!(matches!(
        parse_error(&["TO p", "END", "p \"1"]),
        LogoError::TooManyArguments(3, _)
    ));
}

#[test]
fn unexpected_token() {
    assert!(matches!(parse_error(&["jump"]), LogoError::UnExpectedToken(1, _)));
    assert!(matches!(parse_error(&["]"]), LogoError::UnExpectedToken(1, _)));
}

#[test]
fn call_before_definition_is_unexpected() {
    assert!(matches!(parse_error(&["later", "TO later", "END"]), LogoError::UnExpectedToken(1, _)));
}

#[test]
fn not_an_expression() {
    match parse_error(&["FORWARD what"]) {
        LogoError::NotAexpression(cmd, word) => {
            assert_eq!(cmd, "FORWARD");
            assert_eq!(word, "what");
        }
        e => panic!("{:?}", e),
    }
    match parse_error(&["FORWARD \"x"]) {
        LogoError::NotAexpression(cmd, word) => {
            assert_eq!(cmd, "FORWARD");
            assert_eq!(word, "x");
        }
        e => panic!("{:?}", e),
    }
}

#[test]
fn make_needs_variable_name() {
    assert!(matches!(parse_error(&["MAKE :x \"1"]), LogoError::UnDefinedVariable(_)));
    assert!(matches!(parse_error(&["MAKE"]), LogoError::NoEnoughArguments(1, _)));
}

#[test]
fn procedure_definition_errors() {
    assert!(matches!(parse_error(&["TO f"]), LogoError::FunctionDefineFailed(1)));
    assert!(matches!(parse_error(&["END"]), LogoError::FunctionDefineFailed(1)));
    assert!(matches!(parse_error(&["TO f :a", "END"]), LogoError::FunctionDefineFailed(1)));
    assert!(matches!(parse_error(&["TO"]), LogoError::FunctionDefineFailed(1)));
}

#[test]
fn call_needs_its_arguments() {
    assert!(matches!(
        parse_error(&["TO f \"a", "END", "f"]),
        LogoError::NoEnoughArguments(3, _)
    ));
    let (r, _, _) = run(&["TO f \"a", "END", "f \"1 \"2"]);
    assert!(matches!(r, Err(LogoError::ParameterCountMismatch(_))));
}

#[test]
fn evaluation_errors() {
    assert!(matches!(run(&["FORWARD \"1 \"2"]).0, Err(LogoError::UnusedOperands)));
    assert!(matches!(run(&["FORWARD + \"1"]).0, Err(LogoError::NotEnoughOperands)));
    assert!(matches!(run(&["SETPENCOLOR \"16"]).0, Err(LogoError::ColorOutOfRange(16))));
    assert!(matches!(run(&["MAKE \"x"]).0, Err(LogoError::NoValue)));
    assert!(matches!(
        run(&["MAKE \"x * \"9223372036854775807 \"2"]).0,
        Err(LogoError::Overflow)
    ));
}

#[test]
fn step_budget_runs_out() {
    let (r, _, rec) = run_with_fuel(&["WHILE \"TRUE [", "FORWARD \"1", "]"], 5);
    assert!(matches!(r, Err(LogoError::OutOfFuel)));
    assert_eq!(rec.calls.len(), 5);
}

#[test]
fn error_messages() {
    assert_eq!(LogoError::DivisionByZero.message(), "division by zero");
    assert_eq!(LogoError::UnDefinedVariable("x".to_string()).message(), "undefined variable");
}

#[test]
fn parser_root_and_parts() {
    let mut parser = Parser::new(LexerFactory::create_lexer(lines(&["PENDOWN", "FORWARD \"3"])));
    assert!(parser.run().is_ok());
    let root = parser.get_root();
    match &root {
        ASTNode::Sequence(v) => assert_eq!(v.len(), 2),
        _ => panic!("root is not a sequence"),
    }
}

#[test]
fn dfs_runs_the_root_sequence() {
    let mut parser = Parser::new(LexerFactory::create_lexer(lines(&[
        "TO hop \"d",
        "FORWARD :d",
        "END",
        "PENDOWN",
        "hop \"3",
    ])));
    assert!(parser.run().is_ok());
    let (nodes, procs) = parser.into_parts();
    let root = ASTNode::Sequence(nodes);
    let mut rec = Recorder::new();
    let mut m = Manager::new();
    assert!(m.dfs(&root, &mut rec, &procs, 100).is_ok());
    assert_eq!(rec.calls, vec![Command::PenDown, Command::Forward(3)]);
}

#[test]
fn call_node_builder() {
    let parser = Parser::new(LexerFactory::create_lexer(Vec::new()));
    match parser.handle_user_defined_fn_call("box", None) {
        ASTNode::CustomCall(name, arg) => {
            assert_eq!(name, "box");
            assert!(arg.is_none());
        }
        _ => panic!("not a call"),
    }
}

#[test]
fn failed_increment_binds_nothing_and_stops() {
    let (r, m, rec) = run(&["MAKE \"a \"1", "ADDASSIGN \"x \"1", "FORWARD \"1"]);
    assert!(matches!(r, Err(LogoError::UnDefinedVariable(_))));
    assert_eq!(m.get_variable_val("x"), None);
    assert_eq!(m.get_variable_val("a"), Some(1));
    assert!(rec.calls.is_empty());
}

#[test]
fn count_mismatch_leaves_variables() {
    let (r, m, rec) = run(&["MAKE \"a \"5", "TO f \"a", "FORWARD :a", "END", "f \"1 \"2"]);
    assert!(matches!(r, Err(LogoError::ParameterCountMismatch(_))));
    assert_eq!(m.get_variable_val("a"), Some(5));
    assert!(rec.calls.is_empty());
}

#[test]
fn drawing_before_an_error_stays() {
    let (r, _, rec) = run(&["FORWARD \"4", "FORWARD / \"1 \"0", "FORWARD \"5"]);
    assert!(matches!(r, Err(LogoError::DivisionByZero)));
    assert_eq!(rec.calls, vec![Command::Forward(4)]);
}
