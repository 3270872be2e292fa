//! Word classification: keywords, queries, literals and references.
use crate::text::{split_words, str_eq, strings_view, words_of};
use vstd::prelude::*;
use vstd::string::StrSliceExecFns;

verus! {

/// The reserved words of the language.
#[derive(Debug, Clone, Copy, PartialEq, Eq, Structural)]
pub enum Keyword {
    True,
    False,
    PenUp,
    PenDown,
    Forward,
    Back,
    Left,
    Right,
    SetPenColor,
    Turn,
    SetHeading,
    SetX,
    SetY,
    Make,
    AddAssign,
    If,
    While,
    Equal,
    NotEqual,
    Greater,
    Less,
    And,
    Or,
    Plus,
    Minus,
    Multiply,
    Divide,
    To,
    End,
}

/// The four turtle-state queries usable inside expressions.
#[derive(Debug, Clone, Copy, PartialEq, Eq, Structural)]
pub enum Query {
    XCor,
    YCor,
    Heading,
    Color,
}

/// The class of a word.
#[derive(Debug, Clone, Copy, PartialEq, Eq, Structural)]
pub enum TokenType {
    Invalid,
    Keyword(Keyword),
    /// A quoted numeric or boolean literal, with its value.
    Number(i64),
    /// A quote-sigil name: a variable being defined, or a parameter.
    Variable,
    /// A colon-sigil name: the value of a variable.
    Procedure,
    Query(Query),
    LRrace,
    RBrace,
    LSBracket,
    RSBracket,
}

/// A classified word. For references `souce` holds the name without its
/// sigil; for literals it is empty.
#[derive(Debug)]
pub struct Token {
    pub souce: String,
    pub token_type: TokenType,
}

impl View for Token {
    type V = (Seq<char>, TokenType);

    open spec fn view(&self) -> (Seq<char>, TokenType) {
        (self.souce@, self.token_type)
    }
}

pub open spec fn tokens_view(v: Seq<Token>) -> Seq<(Seq<char>, TokenType)> {
    v.map_values(|t: Token| t@)
}

impl Token {
    pub fn new(souce: String, token_type: TokenType) -> (r: Token)
        ensures
            r.souce@ == souce@,
            r.token_type == token_type,
    {
        Token { souce, token_type }
    }
}

pub open spec fn keyword_of(s: Seq<char>) -> Option<Keyword> {
    if s == "TRUE"@ {
        Some(Keyword::True)
    } else if s == "FALSE"@ {
        Some(Keyword::False)
    } else if s == "PENUP"@ {
        Some(Keyword::PenUp)
    } else if s == "PENDOWN"@ {
        Some(Keyword::PenDown)
    } else if s == "FORWARD"@ {
        Some(Keyword::Forward)
    } else if s == "BACK"@ {
        Some(Keyword::Back)
    } else if s == "LEFT"@ {
        Some(Keyword::Left)
    } else if s == "RIGHT"@ {
        Some(Keyword::Right)
    } else if s == "SETPENCOLOR"@ {
        Some(Keyword::SetPenColor)
    } else if s == "TURN"@ {
        Some(Keyword::Turn)
    } else if s == "SETHEADING"@ {
        Some(Keyword::SetHeading)
    } else if s == "SETX"@ {
        Some(Keyword::SetX)
    } else if s == "SETY"@ {
        Some(Keyword::SetY)
    } else if s == "MAKE"@ {
        Some(Keyword::Make)
    } else if s == "ADDASSIGN"@ {
        Some(Keyword::AddAssign)
    } else if s == "IF"@ {
        Some(Keyword::If)
    } else if s == "WHILE"@ {
        Some(Keyword::While)
    } else if s == "EQ"@ {
        Some(Keyword::Equal)
    } else if s == "NE"@ {
        Some(Keyword::NotEqual)
    } else if s == "GT"@ {
        Some(Keyword::Greater)
    } else if s == "LT"@ {
        Some(Keyword::Less)
    } else if s == "AND"@ {
        Some(Keyword::And)
    } else if s == "OR"@ {
        Some(Keyword::Or)
    } else if s == "+"@ {
        Some(Keyword::Plus)
    } else if s == "-"@ {
        Some(Keyword::Minus)
    } else if s == "*"@ {
        Some(Keyword::Multiply)
    } else if s == "/"@ {
        Some(Keyword::Divide)
    } else if s == "TO"@ {
        Some(Keyword::To)
    } else if s == "END"@ {
        Some(Keyword::End)
    } else {
        None
    }
}

/// The ten binary operators of expressions.
#[derive(Debug, Clone, Copy, PartialEq, Eq, Structural)]
pub enum Operator {
    Equal,
    NotEqual,
    Greater,
    Less,
    And,
    Or,
    Add,
    Subtract,
    Multiply,
    Divide,
}

pub open spec fn operator_of(k: Keyword) -> Option<Operator> {
    match k {
        Keyword::Equal => Some(Operator::Equal),
        Keyword::NotEqual => Some(Operator::NotEqual),
        Keyword::Greater => Some(Operator::Greater),
        Keyword::Less => Some(Operator::Less),
        Keyword::And => Some(Operator::And),
        Keyword::Or => Some(Operator::Or),
        Keyword::Plus => Some(Operator::Add),
        Keyword::Minus => Some(Operator::Subtract),
        Keyword::Multiply => Some(Operator::Multiply),
        Keyword::Divide => Some(Operator::Divide),
        _ => None,
    }
}

pub fn as_operator(k: Keyword) -> (r: Option<Operator>)
    ensures
        r == operator_of(k),
{
    match k {
        Keyword::Equal => Some(Operator::Equal),
        Keyword::NotEqual => Some(Operator::NotEqual),
        Keyword::Greater => Some(Operator::Greater),
        Keyword::Less => Some(Operator::Less),
        Keyword::And => Some(Operator::And),
        Keyword::Or => Some(Operator::Or),
        Keyword::Plus => Some(Operator::Add),
        Keyword::Minus => Some(Operator::Subtract),
        Keyword::Multiply => Some(Operator::Multiply),
        Keyword::Divide => Some(Operator::Divide),
        _ => None,
    }
}

pub fn is_keyword(s: &str) -> (r: Option<Keyword>)
    ensures
        r == keyword_of(s@),
{
    if str_eq(s, "TRUE") {
        Some(Keyword::True)
    } else if str_eq(s, "FALSE") {
        Some(Keyword::False)
    } else if str_eq(s, "PENUP") {
        Some(Keyword::PenUp)
    } else if str_eq(s, "PENDOWN") {
        Some(Keyword::PenDown)
    } else if str_eq(s, "FORWARD") {
        Some(Keyword::Forward)
    } else if str_eq(s, "BACK") {
        Some(Keyword::Back)
    } else if str_eq(s, "LEFT") {
        Some(Keyword::Left)
    } else if str_eq(s, "RIGHT") {
        Some(Keyword::Right)
    } else if str_eq(s, "SETPENCOLOR") {
        Some(Keyword::SetPenColor)
    } else if str_eq(s, "TURN") {
        Some(Keyword::Turn)
    } else if str_eq(s, "SETHEADING") {
        Some(Keyword::SetHeading)
    } else if str_eq(s, "SETX") {
        Some(Keyword::SetX)
    } else if str_eq(s, "SETY") {
        Some(Keyword::SetY)
    } else if str_eq(s, "MAKE") {
        Some(Keyword::Make)
    } else if str_eq(s, "ADDASSIGN") {
        Some(Keyword::AddAssign)
    } else if str_eq(s, "IF") {
        Some(Keyword::If)
    } else if str_eq(s, "WHILE") {
        Some(Keyword::While)
    } else if str_eq(s, "EQ") {
        Some(Keyword::Equal)
    } else if str_eq(s, "NE") {
        Some(Keyword::NotEqual)
    } else if str_eq(s, "GT") {
        Some(Keyword::Greater)
    } else if str_eq(s, "LT") {
        Some(Keyword::Less)
    } else if str_eq(s, "AND") {
        Some(Keyword::And)
    } else if str_eq(s, "OR") {
        Some(Keyword::Or)
    } else if str_eq(s, "+") {
        Some(Keyword::Plus)
    } else if str_eq(s, "-") {
        Some(Keyword::Minus)
    } else if str_eq(s, "*") {
        Some(Keyword::Multiply)
    } else if str_eq(s, "/") {
        Some(Keyword::Divide)
    } else if str_eq(s, "TO") {
        Some(Keyword::To)
    } else if str_eq(s, "END") {
        Some(Keyword::End)
    } else {
        None
    }
}

/// Whether the word is one of the ten binary operators.
pub fn is_keyword_operator(s: &str) -> (r: bool)
    ensures
        r == (keyword_of(s@) is Some && operator_of(keyword_of(s@)->Some_0) is Some),
{
    match is_keyword(s) {
        Some(k) => as_operator(k).is_some(),
        None => false,
    }
}

pub open spec fn query_of(s: Seq<char>) -> Option<Query> {
    if s == "XCOR"@ {
        Some(Query::XCor)
    } else if s == "YCOR"@ {
        Some(Query::YCor)
    } else if s == "HEADING"@ {
        Some(Query::Heading)
    } else if s == "COLOR"@ {
        Some(Query::Color)
    } else {
        None
    }
}

pub fn is_query(s: &str) -> (r: Option<Query>)
    ensures
        r == query_of(s@),
{
    if str_eq(s, "XCOR") {
        Some(Query::XCor)
    } else if str_eq(s, "YCOR") {
        Some(Query::YCor)
    } else if str_eq(s, "HEADING") {
        Some(Query::Heading)
    } else if str_eq(s, "COLOR") {
        Some(Query::Color)
    } else {
        None
    }
}

pub open spec fn is_digit(c: char) -> bool {
    '0' <= c && c <= '9'
}

pub open spec fn digit_value(c: char) -> int {
    (c as u32) as int - ('0' as u32) as int
}

/// The value of a string of decimal digits.
pub open spec fn digits_value(d: Seq<char>) -> int
    decreases d.len(),
{
    if d.len() == 0 {
        0
    } else {
        digits_value(d.drop_last()) * 10 + digit_value(d.last())
    }
}

pub open spec fn all_digits(d: Seq<char>) -> bool {
    d.len() > 0 && forall|i: int| 0 <= i < d.len() ==> is_digit(#[trigger] d[i])
}

/// Decimal text with an optional leading sign.
pub open spec fn integer_value(s: Seq<char>) -> Option<int> {
    if s.len() > 0 && (s[0] == '-' || s[0] == '+') {
        if all_digits(s.drop_first()) {
            Some(
                if s[0] == '-' {
                    -digits_value(s.drop_first())
                } else {
                    digits_value(s.drop_first())
                },
            )
        } else {
            None
        }
    } else if all_digits(s) {
        Some(digits_value(s))
    } else {
        None
    }
}

/// Decimal text whose value fits in an `i64`.
pub open spec fn number_value(s: Seq<char>) -> Option<i64> {
    if integer_value(s) is Some && i64::MIN <= integer_value(s)->Some_0 <= i64::MAX {
        Some(integer_value(s)->Some_0 as i64)
    } else {
        None
    }
}

/// A quote followed by `TRUE`, `FALSE` or a number.
pub open spec fn literal_value(s: Seq<char>) -> Option<i64> {
    if s.len() <= 1 || s[0] != '"' {
        None
    } else if s.drop_first() == "TRUE"@ {
        Some(1)
    } else if s.drop_first() == "FALSE"@ {
        Some(0)
    } else {
        number_value(s.drop_first())
    }
}

proof fn lemma_digits_value_nonneg(d: Seq<char>)
    requires
        forall|i: int| 0 <= i < d.len() ==> is_digit(#[trigger] d[i]),
    ensures
        digits_value(d) >= 0,
    decreases d.len(),
{
    if d.len() > 0 {
        let p = d.drop_last();
        assert forall|i: int| 0 <= i < p.len() implies is_digit(#[trigger] p[i]) by {
            assert(p[i] == d[i]);
        }
        lemma_digits_value_nonneg(p);
    }
}

const DIGITS_CAP: u64 = 9223372036854775809;

/// Reads a decimal integer with an optional sign; `None` when the text is not
/// one or its value does not fit in an `i64`.
pub fn parse_as_number(s: &str) -> (r: Option<i64>)
    ensures
        r == number_value(s@),
{
    let n = s.unicode_len();
    if n == 0 {
        return None;
    }
    let first = s.get_char(0);
    let signed = first == '-' || first == '+';
    let start: usize = if signed { 1 } else { 0 };
    let ghost d = s@.subrange(start as int, n as int);
    assert(signed ==> d =~= s@.drop_first());
    assert(!signed ==> d =~= s@);
    if start >= n {
        assert(d.len() == 0);
        assert(!all_digits(s@.drop_first()));
        return None;
    }
    let mut acc: u64 = 0;
    let mut i: usize = start;
    while i < n
        invariant
            n == s@.len(),
            start < n,
            start <= i <= n,
            d == s@.subrange(start as int, n as int),
            signed == (first == '-' || first == '+'),
            s@[0] == first,
            start == if signed { 1usize } else { 0usize },
            signed ==> d == s@.drop_first(),
            !signed ==> d == s@,
            forall|k: int| start <= k < i ==> is_digit(#[trigger] s@[k]),
            acc as int == if digits_value(s@.subrange(start as int, i as int)) < DIGITS_CAP {
                digits_value(s@.subrange(start as int, i as int))
            } else {
                DIGITS_CAP as int
            },
        decreases n - i,
    {
        let c = s.get_char(i);
        if !('0' <= c && c <= '9') {
            assert(d[i - start] == c);
            assert(!all_digits(d));
            return None;
        }
        let ghost p = s@.subrange(start as int, i as int);
        let ghost q = s@.subrange(start as int, (i + 1) as int);
        assert(q.drop_last() =~= p);
        assert forall|k: int| 0 <= k < p.len() implies is_digit(#[trigger] p[k]) by {
            assert(p[k] == s@[start + k]);
        }
        proof {
            lemma_digits_value_nonneg(p);
        }
        let dv = (c as u32 - '0' as u32) as u64;
        if acc >= 922337203685477581 {
            acc = DIGITS_CAP;
        } else {
            acc = acc * 10 + dv;
            if acc > DIGITS_CAP {
                acc = DIGITS_CAP;
            }
        }
        i = i + 1;
    }
    assert(s@.subrange(start as int, n as int) == d);
    assert forall|k: int| 0 <= k < d.len() implies is_digit(#[trigger] d[k]) by {
        assert(d[k] == s@[start + k]);
    }
    if first == '-' {
        if acc <= 9223372036854775808 {
            let v: i128 = 0 - (acc as i128);
            Some(v as i64)
        } else {
            None
        }
    } else if acc <= 9223372036854775807 {
        Some(acc as i64)
    } else {
        None
    }
}

/// Reads a quoted literal: `"TRUE` is 1, `"FALSE` is 0, `"` followed by a
/// number is that number.
pub fn is_literal(s: &str) -> (r: Option<i64>)
    ensures
        r == literal_value(s@),
{
    let n = s.unicode_len();
    if n <= 1 {
        return None;
    }
    if s.get_char(0) != '"' {
        return None;
    }
    let body = s.substring_char(1, n);
    assert(body@ =~= s@.drop_first());
    if str_eq(body, "TRUE") {
        Some(1)
    } else if str_eq(body, "FALSE") {
        Some(0)
    } else {
        parse_as_number(body)
    }
}

pub open spec fn is_ident_start(c: char) -> bool {
    ('a' <= c && c <= 'z') || ('A' <= c && c <= 'Z') || c == '_'
}

pub open spec fn is_ident_char(c: char) -> bool {
    is_ident_start(c) || is_digit(c)
}

/// Somewhere in `s` a quote is directly followed by a letter or an underscore.
pub open spec fn has_variable_shape(s: Seq<char>) -> bool {
    exists|i: int| 0 <= i && i + 1 < s.len() && #[trigger] s[i] == '"' && is_ident_start(s[i + 1])
}

/// Relies on `regex::Regex::new` and `regex::Regex::is_match`: the unanchored
/// pattern `"[a-zA-Z_][a-zA-Z0-9_]*[^"]*` matches a string exactly when some
/// quote in it is directly followed by an ASCII letter or an underscore (the two
/// starred parts may match nothing). The pattern is valid, so `new` succeeds.
#[verifier::external_body]
fn matches_variable_pattern(s: &str) -> (r: bool)
    ensures
        r == has_variable_shape(s@),
{
    regex::Regex::new(r#""[a-zA-Z_][a-zA-Z0-9_]*[^"]*"#).unwrap().is_match(s)
}

/// A word that names a variable being defined: not a keyword, and of
/// variable shape.
pub fn is_variable(s: &str) -> (r: Option<()>)
    ensures
        r is Some <==> (keyword_of(s@) is None && has_variable_shape(s@)),
{
    if is_keyword(s).is_some() {
        return None;
    }
    if matches_variable_pattern(s) {
        Some(())
    } else {
        None
    }
}

/// A colon followed by an identifier: a reference to a variable's value.
pub open spec fn is_value_reference(s: Seq<char>) -> bool {
    s.len() >= 2 && s[0] == ':' && is_ident_start(s[1]) && forall|i: int|
        2 <= i < s.len() ==> is_ident_char(#[trigger] s[i])
}

pub fn is_value_reference_text(s: &str) -> (r: bool)
    ensures
        r == is_value_reference(s@),
{
    let n = s.unicode_len();
    if n < 2 {
        return false;
    }
    if s.get_char(0) != ':' {
        return false;
    }
    let c1 = s.get_char(1);
    if !(('a' <= c1 && c1 <= 'z') || ('A' <= c1 && c1 <= 'Z') || c1 == '_') {
        return false;
    }
    let mut i: usize = 2;
    while i < n
        invariant
            n == s@.len(),
            2 <= i <= n,
            forall|k: int| 2 <= k < i ==> is_ident_char(#[trigger] s@[k]),
        decreases n - i,
    {
        let c = s.get_char(i);
        if !(('a' <= c && c <= 'z') || ('A' <= c && c <= 'Z') || c == '_' || ('0' <= c && c
            <= '9')) {
            return false;
        }
        i = i + 1;
    }
    true
}

/// What a word becomes: its kept text and its class. Brackets come first, then
/// keywords, queries, literals, variable names and value references; anything
/// else is invalid and kept whole.
pub open spec fn token_of(s: Seq<char>) -> (Seq<char>, TokenType) {
    if s == "("@ {
        (s, TokenType::LRrace)
    } else if s == ")"@ {
        (s, TokenType::RBrace)
    } else if s == "["@ {
        (s, TokenType::LSBracket)
    } else if s == "]"@ {
        (s, TokenType::RSBracket)
    } else if keyword_of(s) is Some {
        (s, TokenType::Keyword(keyword_of(s)->Some_0))
    } else if query_of(s) is Some {
        (s, TokenType::Query(query_of(s)->Some_0))
    } else if literal_value(s) is Some {
        (Seq::empty(), TokenType::Number(literal_value(s)->Some_0))
    } else if has_variable_shape(s) {
        (s.drop_first(), TokenType::Variable)
    } else if is_value_reference(s) {
        (s.drop_first(), TokenType::Procedure)
    } else {
        (s, TokenType::Invalid)
    }
}

/// Classifies one word.
pub fn distinguish(s: String) -> (r: Token)
    ensures
        r@ == token_of(s@),
{
    let w = s.as_str();
    if str_eq(w, "(") {
        return Token::new(s, TokenType::LRrace);
    }
    if str_eq(w, ")") {
        return Token::new(s, TokenType::RBrace);
    }
    if str_eq(w, "[") {
        return Token::new(s, TokenType::LSBracket);
    }
    if str_eq(w, "]") {
        return Token::new(s, TokenType::RSBracket);
    }
    if let Some(k) = is_keyword(w) {
        return Token::new(s, TokenType::Keyword(k));
    }
    if let Some(q) = is_query(w) {
        return Token::new(s, TokenType::Query(q));
    }
    if let Some(v) = is_literal(w) {
        return Token::new(String::new(), TokenType::Number(v));
    }
    let n = w.unicode_len();
    if is_variable(w).is_some() {
        let name = w.substring_char(1, n).to_owned();
        assert(name@ =~= s@.drop_first());
        return Token::new(name, TokenType::Variable);
    }
    if is_value_reference_text(w) {
        let name = w.substring_char(1, n).to_owned();
        assert(name@ =~= s@.drop_first());
        return Token::new(name, TokenType::Procedure);
    }
    Token::new(s, TokenType::Invalid)
}

/// A line with no words, or one whose first word is `//`, holds no statement.
pub open spec fn is_skipped(words: Seq<Seq<char>>) -> bool {
    words.len() == 0 || words[0] == "//"@
}

pub open spec fn line_tokens(line: Seq<char>) -> Seq<(Seq<char>, TokenType)> {
    words_of(line).map_values(|w: Seq<char>| token_of(w))
}

/// The index of the first line at or after `i` that holds a statement, or the
/// number of lines if there is none.
pub open spec fn next_index(src: Seq<Seq<char>>, i: int) -> int
    decreases src.len() - i,
{
    if i < 0 || i >= src.len() {
        src.len() as int
    } else if is_skipped(words_of(src[i])) {
        next_index(src, i + 1)
    } else {
        i
    }
}

pub proof fn lemma_next_index(src: Seq<Seq<char>>, i: int)
    requires
        0 <= i <= src.len(),
    ensures
        i <= next_index(src, i) <= src.len(),
        next_index(src, i) < src.len() ==> !is_skipped(words_of(src[next_index(src, i)])),
    decreases src.len() - i,
{
    if i < src.len() && is_skipped(words_of(src[i])) {
        lemma_next_index(src, i + 1);
    }
}

/// Hands out the statements of a program line by line, as tokens, and counts
/// the physical lines consumed so far.
pub struct Lexer {
    source: Vec<String>,
    pos: usize,
}

pub fn is_comment(s: &str) -> (r: bool)
    ensures
        r == (s@ == "//"@),
{
    str_eq(s, "//")
}

impl Lexer {
    pub closed spec fn lines(&self) -> Seq<Seq<char>> {
        strings_view(self.source@)
    }

    /// The number of physical lines consumed.
    pub closed spec fn position(&self) -> int {
        self.pos as int
    }

    pub closed spec fn wf(&self) -> bool {
        self.pos <= self.source.len()
    }

    /// The number of lines not yet consumed.
    pub open spec fn remaining(&self) -> int {
        self.lines().len() - self.position()
    }

    pub proof fn lemma_wf(&self)
        requires
            self.wf(),
        ensures
            0 <= self.position() <= self.lines().len(),
    {
    }

    /// Returns the tokens of the next line that holds a statement, or `None`
    /// at the end of the program; every line passed over is counted.
    pub fn next_line_token(&mut self) -> (r: Option<Vec<Token>>)
        requires
            old(self).wf(),
        ensures
            final(self).wf(),
            final(self).lines() == old(self).lines(),
            ({
                let j = next_index(old(self).lines(), old(self).position());
                if j < old(self).lines().len() {
                    &&& r is Some
                    &&& tokens_view(r->Some_0@) == line_tokens(old(self).lines()[j])
                    &&& final(self).position() == j + 1
                } else {
                    &&& r is None
                    &&& final(self).position() == old(self).lines().len()
                }
            }),
    {
        let ghost src = self.lines();
        proof {
            lemma_next_index(src, self.pos as int);
        }
        while self.pos < self.source.len()
            invariant
                self.wf(),
                self.lines() == src,
                src == old(self).lines(),
                old(self).pos <= self.pos,
                next_index(src, old(self).pos as int) == next_index(src, self.pos as int),
            decreases self.source.len() - self.pos,
        {
            let words = split_words(self.source[self.pos].as_str());
            assert(src[self.pos as int] == self.source@[self.pos as int]@);
            let skip = if words.len() == 0 {
                true
            } else {
                assert(strings_view(words@)[0] == words@[0]@);
                is_comment(words[0].as_str())
            };
            if !skip {
                let mut tokens: Vec<Token> = Vec::new();
                let mut k: usize = 0;
                let ghost ws = words_of(src[self.pos as int]);
                while k < words.len()
                    invariant
                        self.wf(),
                        self.lines() == src,
                        src == old(self).lines(),
                        next_index(src, old(self).pos as int) == next_index(src, self.pos as int),
                        self.pos < self.source.len(),
                        k <= words.len(),
                        strings_view(words@) == ws,
                        ws == words_of(src[self.pos as int]),
                        tokens_view(tokens@) == ws.subrange(0, k as int).map_values(
                            |w: Seq<char>| token_of(w),
                        ),
                    decreases words.len() - k,
                {
                    assert(strings_view(words@)[k as int] == words@[k as int]@);
                    let w = words[k].clone();
                    assert(w@ == ws[k as int]);
                    let t = distinguish(w);
                    assert(t@ == token_of(ws[k as int]));
                    let ghost before = tokens@;
                    assert(ws.len() == words@.len());
                    assert(tokens_view(before).len() == before.len());
                    assert(before.len() == k);
                    tokens.push(t);
                    assert(tokens@ == before.push(t));
                    assert forall|i: int| 0 <= i <= k implies #[trigger] tokens_view(tokens@)[i]
                        == token_of(ws[i]) by {
                        if i < k {
                            assert(tokens@[i] == before[i]);
                            assert(tokens_view(before)[i] == ws.subrange(0, k as int).map_values(
                                |w: Seq<char>| token_of(w),
                            )[i]);
                        }
                    }
                    assert(tokens_view(tokens@) =~= ws.subrange(0, (k + 1) as int).map_values(
                        |w: Seq<char>| token_of(w),
                    ));
                    k = k + 1;
                }
                assert(ws.subrange(0, k as int) =~= ws);
                self.pos = self.pos + 1;
                return Some(tokens);
            }
            self.pos = self.pos + 1;
        }
        None
    }

    pub fn get_current_line_number(&self) -> (r: usize)
        ensures
            r == self.position(),
    {
        self.pos
    }
}

pub struct LexerFactory;

impl LexerFactory {
    /// A lexer at the start of the given source lines.
    pub fn create_lexer(source: Vec<String>) -> (r: Lexer)
        ensures
            r.wf(),
            r.lines() == strings_view(source@),
            r.position() == 0,
    {
        Lexer { source, pos: 0 }
    }
}

} // verus!
