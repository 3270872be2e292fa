use logo_turtle::ast::Atom;
use logo_turtle::expression::{evaluate_prefix, Snapshot};
use logo_turtle::lexer::{
    distinguish, is_keyword, is_keyword_operator, is_literal, is_query, is_variable, Keyword,
    LexerFactory, Operator, Query, TokenType,
};
use logo_turtle::parser::parse_as_number;
use logo_turtle::table::Table;
use logo_turtle::text::split_words;
use logo_turtle::turtle::{ExecutorFactory, Segment, Turtle};

#[test]
fn keywords() {
    assert_eq!(is_keyword("FORWARD"), Some(Keyword::Forward));
    assert_eq!(is_keyword("TO"), Some(Keyword::To));
    assert_eq!(is_keyword("+"), Some(Keyword::Plus));
    assert_eq!(is_keyword("forward"), None);
    assert!(is_keyword_operator("NE"));
    assert!(is_keyword_operator("/"));
    assert!(!is_keyword_operator("MAKE"));
}

#[test]
fn queries() {
    assert_eq!(is_query("XCOR"), Some(Query::XCor));
    assert_eq!(is_query("COLOR"), Some(Query::Color));
    assert_eq!(is_query("XCORD"), None);
}

#[test]
fn literals() {
    assert_eq!(is_literal("\"TRUE"), Some(1));
    assert_eq!(is_literal("\"FALSE"), Some(0));
    assert_eq!(is_literal("\"12"), Some(12));
    assert_eq!(is_literal("\"-4"), Some(-4));
    assert_eq!(is_literal("\"+4"), Some(4));
    assert_eq!(is_literal("\"-9223372036854775808"), Some(i64::MIN));
    assert_eq!(is_literal("\"9223372036854775808"), None);
    assert_eq!(is_literal("\"1.5"), None);
    assert_eq!(is_literal("\""), None);
    assert_eq!(is_literal("12"), None);
    assert_eq!(is_literal("\"-"), None);
}

#[test]
fn numbers() {
    assert_eq!(parse_as_number("0"), Some(0));
    assert_eq!(parse_as_number("007"), Some(7));
    assert_eq!(parse_as_number("9223372036854775807"), Some(i64::MAX));
    assert_eq!(parse_as_number("99999999999999999999999"), None);
    assert_eq!(parse_as_number("1a"), None);
    assert_eq!(parse_as_number(""), None);
}

#[test]
fn variable_names() {
    assert_eq!(is_variable("\"abc"), Some(()));
    assert_eq!(is_variable("\"_a1"), Some(()));
    assert_eq!(is_variable("abc"), None);
    assert_eq!(is_variable("abc\""), None);
    assert_eq!(is_variable("\"1a"), None);
    assert_eq!(is_variable("a\"b"), Some(()));
}

#[test]
fn classification() {
    let t = distinguish("[".to_string());
    assert_eq!(t.token_type, TokenType::LSBracket);
    let t = distinguish("\"size".to_string());
    assert_eq!(t.token_type, TokenType::Variable);
    assert_eq!(t.souce, "size");
    let t = distinguish(":size".to_string());
    assert_eq!(t.token_type, TokenType::Procedure);
    assert_eq!(t.souce, "size");
    let t = distinguish("\"5".to_string());
    assert_eq!(t.token_type, TokenType::Number(5));
    assert_eq!(t.souce, "");
    let t = distinguish("HEADING".to_string());
    assert_eq!(t.token_type, TokenType::Query(Query::Heading));
    let t = distinguish("WHILE".to_string());
    assert_eq!(t.token_type, TokenType::Keyword(Keyword::While));
    let t = distinguish("square".to_string());
    assert_eq!(t.token_type, TokenType::Invalid);
    assert_eq!(t.souce, "square");
    let t = distinguish("\"FORWARD".to_string());
    assert_eq!(t.token_type, TokenType::Variable);
}

#[test]
fn words_split_on_whitespace() {
    assert_eq!(split_words("  FORWARD\t\"5  "), vec!["FORWARD".to_string(), "\"5".to_string()]);
    assert!(split_words("   ").is_empty());
}

#[test]
fn lexer_counts_lines() {
    let mut lx = LexerFactory::create_lexer(vec![
        "".to_string(),
        "// note".to_string(),
        "PENUP".to_string(),
        "".to_string(),
    ]);
    let toks = lx.next_line_token().unwrap();
    assert_eq!(toks.len(), 1);
    assert_eq!(toks[0].token_type, TokenType::Keyword(Keyword::PenUp));
    assert_eq!(lx.get_current_line_number(), 3);
    assert!(lx.next_line_token().is_none());
    assert_eq!(lx.get_current_line_number(), 4);
}

#[test]
fn prefix_evaluation_order() {
    let vars: Table<i64> = Table::new();
    let snap = Snapshot { x: 0, y: 0, heading: 0, color: 0 };
    let cases = vec![
        (Operator::Subtract, 10, 3, 7),
        (Operator::Divide, 10, 2, 5),
        (Operator::Greater, 10, 3, 1),
        (Operator::Greater, 3, 10, 0),
    ];
    for (op, a, b, expected) in cases {
        let e = vec![Atom::Operator(op), Atom::Number(a), Atom::Number(b)];
        let st = evaluate_prefix(&e, &vars, &snap).unwrap();
        assert_eq!(st, vec![expected]);
    }
}

#[test]
fn prefix_evaluation_reads_names_and_queries() {
    let mut vars: Table<i64> = Table::new();
    vars.insert("k".to_string(), 4);
    let snap = Snapshot { x: 9, y: 0, heading: 0, color: 0 };
    let e = vec![
        Atom::Operator(Operator::Add),
        Atom::Value("k".to_string()),
        Atom::Query(Query::XCor),
    ];
    assert_eq!(evaluate_prefix(&e, &vars, &snap).unwrap(), vec![13]);
    let e = vec![Atom::Value("missing".to_string())];
    assert!(evaluate_prefix(&e, &vars, &snap).is_err());
}

#[test]
fn table_insert_and_remove() {
    let mut t: Table<i64> = Table::new();
    t.insert("a".to_string(), 1);
    t.insert("b".to_string(), 2);
    t.insert("a".to_string(), 3);
    assert_eq!(t.get("a"), Some(&3));
    t.remove("a");
    assert_eq!(t.get("a"), None);
    assert_eq!(t.get("b"), Some(&2));
}

#[test]
fn turtle_moves_through_unsvg() {
    let mut t: Turtle = ExecutorFactory::create_turtle(100, 100);
    assert_eq!((t.x, t.y, t.direction), (50, 50, 0));
    assert_eq!(t.foreward(10), Some(None));
    assert_eq!((t.x, t.y), (50, 40));
    t.pen_down = true;
    assert_eq!(
        t.right(5),
        Some(Some(Segment { x: 50, y: 40, direction: 270, length: -5, color_idx: 7 }))
    );
    assert_eq!((t.x, t.y), (55, 40));
    assert_eq!(
        t.foreward(-5),
        Some(Some(Segment { x: 55, y: 40, direction: 450, length: -5, color_idx: 7 }))
    );
    assert_eq!((t.x, t.y, t.direction), (50, 40, 450));
    assert!(t.turn(-30));
    assert_eq!(t.direction, 420);
    assert!(t.turn(30));
    assert_eq!(t.direction, 390);
    assert!(t.set_heading(180));
    assert!(t.set_x_coordinate(3));
    assert!(!t.set_y_coordinate(i64::MAX));
    assert_eq!(t.foreward(i64::MAX), None);
    assert_eq!(t.back(i64::MIN), None);
}

#[test]
fn turtle_advance_takes_the_end() {
    let mut t: Turtle = Turtle::new(10, 10);
    assert_eq!(t.advance(45, 3, (8, 2)), None);
    assert_eq!((t.x, t.y, t.direction), (8, 2, 45));
    t.pen_down = true;
    t.color_idx = 4;
    assert_eq!(
        t.advance(90, 2, (10, 2)),
        Some(Segment { x: 8, y: 2, direction: 90, length: 2, color_idx: 4 })
    );
    assert_eq!((t.x, t.y), (10, 2));
}
