//! The line-based parser: statements, blocks and procedure definitions.
use crate::ast::{ASTNode, Atom, AtomV, FunName, NodeV, atoms_view, nodes_view};
use crate::error::{ErrorV, LogoError};
use crate::expression::{atom_of, is_expression};
use crate::lexer::{Keyword, Lexer, Token, TokenType, line_tokens, next_index, tokens_view};
use crate::table::Table;
pub use crate::lexer::parse_as_number;
use crate::text::strings_view;
use vstd::prelude::*;

verus! {

/// What ends a run of lines: the end of the program, a `]` line, or an
/// `END` line.
#[derive(Debug, Clone, Copy, PartialEq, Eq, Structural)]
pub enum Mode {
    Top,
    Block,
    Body,
}

/// The procedure table as the parser sees it: parameter names and bodies.
pub struct ProcsV {
    pub params: Map<Seq<char>, Seq<Seq<char>>>,
    pub bodies: Map<Seq<char>, Seq<NodeV>>,
}


/// The expression made of `toks[i..end]`, in order.
pub open spec fn expr_from(
    toks: Seq<(Seq<char>, TokenType)>,
    i: int,
    end: int,
    cmd: Seq<char>,
) -> Result<Seq<AtomV>, ErrorV>
    decreases end - i,
{
    if i < 0 || i >= end || end > toks.len() {
        Ok(Seq::empty())
    } else {
        match atom_of(toks[i]) {
            Some(a) => match expr_from(toks, i + 1, end, cmd) {
                Ok(rest) => Ok(seq![a] + rest),
                Err(e) => Err(e),
            },
            None => Err(ErrorV::NotAexpression(cmd, toks[i].0)),
        }
    }
}

/// The primitives that take one expression.
pub open spec fn primitive_of(k: Keyword) -> Option<FunName> {
    match k {
        Keyword::Forward => Some(FunName::Foreward),
        Keyword::Back => Some(FunName::Back),
        Keyword::Left => Some(FunName::Left),
        Keyword::Right => Some(FunName::Right),
        Keyword::SetPenColor => Some(FunName::SetColor),
        Keyword::Turn => Some(FunName::Turn),
        Keyword::SetHeading => Some(FunName::SetHeading),
        Keyword::SetX => Some(FunName::SetXCoordinate),
        Keyword::SetY => Some(FunName::SetYCoordinate),
        _ => None,
    }
}

/// A statement that stands on one line: a primitive, an assignment or a
/// call of a procedure already defined.
pub open spec fn simple_statement(
    toks: Seq<(Seq<char>, TokenType)>,
    line: nat,
    params: Map<Seq<char>, Seq<Seq<char>>>,
) -> Result<NodeV, ErrorV> {
    let head = toks[0];
    match head.1 {
        TokenType::Invalid => if !params.contains_key(head.0) {
            Err(ErrorV::UnExpectedToken(line, head.0))
        } else if params[head.0].len() == 0 {
            if toks.len() > 1 {
                Err(ErrorV::TooManyArguments(line, head.0))
            } else {
                Ok(NodeV::CustomCall(head.0, None))
            }
        } else if toks.len() < 2 {
            Err(ErrorV::NoEnoughArguments(line, head.0))
        } else {
            match expr_from(toks, 1, toks.len() as int, head.0) {
                Ok(e) => Ok(NodeV::CustomCall(head.0, Some(e))),
                Err(e) => Err(e),
            }
        },
        TokenType::Keyword(k) => if k == Keyword::PenUp || k == Keyword::PenDown {
            if toks.len() != 1 {
                Err(ErrorV::TooManyArguments(line, head.0))
            } else {
                Ok(
                    NodeV::FunctionCall(
                        if k == Keyword::PenUp {
                            FunName::PenUp
                        } else {
                            FunName::PenDown
                        },
                        Seq::empty(),
                    ),
                )
            }
        } else if primitive_of(k) is Some {
            if toks.len() < 2 {
                Err(ErrorV::NoEnoughArguments(line, head.0))
            } else {
                match expr_from(toks, 1, toks.len() as int, head.0) {
                    Ok(e) => Ok(NodeV::FunctionCall(primitive_of(k)->Some_0, e)),
                    Err(e) => Err(e),
                }
            }
        } else if k == Keyword::Make || k == Keyword::AddAssign {
            if toks.len() < 2 {
                Err(ErrorV::NoEnoughArguments(line, head.0))
            } else if toks[1].1 != TokenType::Variable {
                Err(ErrorV::UnDefinedVariable(toks[1].0))
            } else {
                match expr_from(toks, 2, toks.len() as int, head.0) {
                    Ok(e) => Ok(
                        if k == Keyword::Make {
                            NodeV::Define(toks[1].0, e)
                        } else {
                            NodeV::IncrementAssign(toks[1].0, e)
                        },
                    ),
                    Err(e) => Err(e),
                }
            }
        } else {
            Err(ErrorV::UnExpectedToken(line, head.0))
        },
        _ => Err(ErrorV::UnExpectedToken(line, head.0)),
    }
}

/// Every word after the procedure name is a variable name.
pub open spec fn params_ok(toks: Seq<(Seq<char>, TokenType)>) -> bool {
    forall|k: int| 2 <= k < toks.len() ==> (#[trigger] toks[k]).1 == TokenType::Variable
}

pub open spec fn param_names(toks: Seq<(Seq<char>, TokenType)>) -> Seq<Seq<char>> {
    toks.subrange(2, toks.len() as int).map_values(|t: (Seq<char>, TokenType)| t.0)
}

/// The statement on line `j` (counted from 0), which holds a statement: the
/// node it yields (none for a definition), the line after it and the
/// procedure table after it.
pub open spec fn line_step(src: Seq<Seq<char>>, j: int, procs: ProcsV) -> (
    Result<Option<NodeV>, ErrorV>,
    int,
    ProcsV,
)
    decreases src.len() - j, 0nat,
{
    if j < 0 || j >= src.len() {
        (Err(ErrorV::NoValue), j + 1, procs)
    } else {
        let toks = line_tokens(src[j]);
        let line = (j + 1) as nat;
        let head = toks[0];
        if head.1 == TokenType::Keyword(Keyword::If) || head.1 == TokenType::Keyword(Keyword::While) {
            if toks.last().1 != TokenType::LSBracket {
                (Err(ErrorV::UnvalidIfOrWhile(line)), j + 1, procs)
            } else {
                match expr_from(toks, 1, toks.len() - 1, head.0) {
                    Err(e) => (Err(e), j + 1, procs),
                    Ok(cond) => {
                        let (rb, e1, pr1) = parse_lines(src, j + 1, Mode::Block, procs);
                        match rb {
                            Ok(body) => (
                                Ok(
                                    Some(
                                        if head.1 == TokenType::Keyword(Keyword::If) {
                                            NodeV::If(cond, body)
                                        } else {
                                            NodeV::While(cond, body)
                                        },
                                    ),
                                ),
                                e1,
                                pr1,
                            ),
                            Err(e) => (Err(e), e1, pr1),
                        }
                    },
                }
            }
        } else if head.1 == TokenType::Keyword(Keyword::To) {
            if toks.len() < 2 || !params_ok(toks) {
                (Err(ErrorV::FunctionDefineFailed(line)), j + 1, procs)
            } else {
                let name = toks[1].0;
                let pa = ProcsV {
                    params: procs.params.insert(name, param_names(toks)),
                    bodies: procs.bodies,
                };
                let (rb, e1, pr1) = parse_lines(src, j + 1, Mode::Body, pa);
                match rb {
                    Ok(body) => (
                        Ok(None),
                        e1,
                        ProcsV { params: pr1.params, bodies: pr1.bodies.insert(name, body) },
                    ),
                    Err(e) => (Err(e), e1, pr1),
                }
            }
        } else if head.1 == TokenType::Keyword(Keyword::End) {
            (Err(ErrorV::FunctionDefineFailed(line)), j + 1, procs)
        } else {
            match simple_statement(toks, line, procs.params) {
                Ok(n) => (Ok(Some(n)), j + 1, procs),
                Err(e) => (Err(e), j + 1, procs),
            }
        }
    }
}

/// The lines from `pos` on, up to what ends `mode`: the statements, the
/// line after the last one consumed, and the procedure table after them.
pub open spec fn parse_lines(src: Seq<Seq<char>>, pos: int, mode: Mode, procs: ProcsV) -> (
    Result<Seq<NodeV>, ErrorV>,
    int,
    ProcsV,
)
    decreases src.len() - pos, 1nat,
{
    let j = next_index(src, pos);
    if pos < 0 || pos > src.len() || j < pos || j >= src.len() {
        (
            match mode {
                Mode::Top => Ok(Seq::empty()),
                Mode::Block => Err(ErrorV::UnvalidIfOrWhile(src.len())),
                Mode::Body => Err(ErrorV::FunctionDefineFailed(src.len())),
            },
            src.len() as int,
            procs,
        )
    } else {
        let toks = line_tokens(src[j]);
        if mode == Mode::Block && toks.len() == 1 && toks[0].1 == TokenType::RSBracket {
            (Ok(Seq::empty()), j + 1, procs)
        } else if mode == Mode::Body && toks.len() == 1 && toks[0].1 == TokenType::Keyword(
            Keyword::End,
        ) {
            (Ok(Seq::empty()), j + 1, procs)
        } else {
            let (r, e1, pr1) = line_step(src, j, procs);
            match r {
                Err(e) => (Err(e), e1, pr1),
                Ok(n) => if e1 <= pos || e1 > src.len() {
                    (Err(ErrorV::NoValue), e1, pr1)
                } else {
                    let (rr, e2, pr2) = parse_lines(src, e1, mode, pr1);
                    match rr {
                        Ok(rest) => (
                            Ok(
                                match n {
                                    Some(x) => seq![x] + rest,
                                    None => rest,
                                },
                            ),
                            e2,
                            pr2,
                        ),
                        Err(e) => (Err(e), e2, pr2),
                    }
                },
            }
        }
    }
}

/// A statement sequence in front of a result.
pub open spec fn prepend(s: Seq<NodeV>, r: Result<Seq<NodeV>, ErrorV>) -> Result<Seq<NodeV>, ErrorV> {
    match r {
        Ok(rest) => Ok(s + rest),
        Err(e) => Err(e),
    }
}

pub open spec fn empty_procs() -> ProcsV {
    ProcsV { params: Map::empty(), bodies: Map::empty() }
}

/// The statements and procedure table of a whole program.
pub open spec fn parse_program(src: Seq<Seq<char>>) -> (Result<Seq<NodeV>, ErrorV>, ProcsV) {
    let (r, _e, p) = parse_lines(src, 0, Mode::Top, empty_procs());
    (r, p)
}

proof fn lemma_map_values_insert<V, W>(m: Map<Seq<char>, V>, k: Seq<char>, v: V, f: spec_fn(V) -> W)
    ensures
        m.insert(k, v).map_values(f) == m.map_values(f).insert(k, f(v)),
{
    assert(m.insert(k, v).map_values(f) =~= m.map_values(f).insert(k, f(v)));
}

/// The procedure table: parameter names and bodies by procedure name.
pub struct Procedures {
    pub func_vars: Table<Vec<String>>,
    pub function_table: Table<Vec<ASTNode>>,
}

impl Procedures {
    pub open spec fn wf(&self) -> bool {
        self.func_vars.wf() && self.function_table.wf()
    }

    pub open spec fn view_procs(&self) -> ProcsV {
        ProcsV {
            params: self.func_vars.map().map_values(|v: Vec<String>| strings_view(v@)),
            bodies: self.function_table.map().map_values(|v: Vec<ASTNode>| nodes_view(v@)),
        }
    }

    pub fn new() -> (r: Procedures)
        ensures
            r.wf(),
            r.view_procs() == empty_procs(),
    {
        let r = Procedures { func_vars: Table::new(), function_table: Table::new() };
        assert(r.view_procs().params =~= Map::<Seq<char>, Seq<Seq<char>>>::empty());
        assert(r.view_procs().bodies =~= Map::<Seq<char>, Seq<NodeV>>::empty());
        r
    }
}

/// The expression made of `tokens[from..end]`.
pub fn parse_expression(tokens: &Vec<Token>, from: usize, end: usize, cmd: &String) -> (r:
    Result<Vec<Atom>, LogoError>)
    requires
        from <= end <= tokens.len(),
    ensures
        match r {
            Ok(v) => expr_from(tokens_view(tokens@), from as int, end as int, cmd@)
                == Ok::<Seq<AtomV>, ErrorV>(atoms_view(v@)),
            Err(e) => expr_from(tokens_view(tokens@), from as int, end as int, cmd@)
                == Err::<Seq<AtomV>, ErrorV>(e@),
        },
{
    let ghost tv = tokens_view(tokens@);
    let mut out: Vec<Atom> = Vec::new();
    let mut i: usize = from;
    while i < end
        invariant
            from <= i <= end,
            end <= tokens.len(),
            tv == tokens_view(tokens@),
            expr_from(tv, from as int, end as int, cmd@) == match expr_from(
                tv,
                i as int,
                end as int,
                cmd@,
            ) {
                Ok(rest) => Ok(atoms_view(out@) + rest),
                Err(e) => Err(e),
            },
        decreases end - i,
    {
        assert(tv[i as int] == tokens@[i as int]@);
        match is_expression(&tokens[i]) {
            Some(a) => {
                let ghost before = out@;
                out.push(a);
                assert(atoms_view(out@) =~= atoms_view(before).push(a@));
                assert(forall|rest: Seq<AtomV>|
                    atoms_view(before) + (seq![a@] + rest) =~= atoms_view(out@) + rest);
            },
            None => {
                return Err(LogoError::NotAexpression(cmd.clone(), tokens[i].souce.clone()));
            },
        }
        i = i + 1;
    }
    assert(atoms_view(out@) + Seq::<AtomV>::empty() =~= atoms_view(out@));
    Ok(out)
}

pub fn primitive_fun(k: Keyword) -> (r: Option<FunName>)
    ensures
        r == primitive_of(k),
{
    match k {
        Keyword::Forward => Some(FunName::Foreward),
        Keyword::Back => Some(FunName::Back),
        Keyword::Left => Some(FunName::Left),
        Keyword::Right => Some(FunName::Right),
        Keyword::SetPenColor => Some(FunName::SetColor),
        Keyword::Turn => Some(FunName::Turn),
        Keyword::SetHeading => Some(FunName::SetHeading),
        Keyword::SetX => Some(FunName::SetXCoordinate),
        Keyword::SetY => Some(FunName::SetYCoordinate),
        _ => None,
    }
}

/// Builds the statements of a program from the lines a lexer hands out, and
/// records every procedure definition in its table.
pub struct Parser {
    token_source: Lexer,
    procedures: Procedures,
    root: Vec<ASTNode>,
}

impl Parser {
    pub closed spec fn wf(&self) -> bool {
        self.token_source.wf() && self.procedures.wf()
    }

    pub closed spec fn lines(&self) -> Seq<Seq<char>> {
        self.token_source.lines()
    }

    pub closed spec fn position(&self) -> int {
        self.token_source.position()
    }

    pub closed spec fn procs(&self) -> ProcsV {
        self.procedures.view_procs()
    }

    pub closed spec fn remaining(&self) -> int {
        self.token_source.remaining()
    }

    pub closed spec fn root_view(&self) -> Seq<NodeV> {
        nodes_view(self.root@)
    }

    pub fn new(token_source: Lexer) -> (r: Parser)
        requires
            token_source.wf(),
        ensures
            r.wf(),
            r.lines() == token_source.lines(),
            r.position() == token_source.position(),
            r.procs() == empty_procs(),
            r.root_view() == Seq::<NodeV>::empty(),
    {
        let r = Parser { token_source, procedures: Procedures::new(), root: Vec::new() };
        assert(r.root_view() =~= Seq::<NodeV>::empty());
        r
    }

    /// A call of the procedure `name`.
    pub fn handle_user_defined_fn_call(&self, name: &str, expression: Option<Vec<Atom>>) -> (r:
        ASTNode)
        ensures
            crate::ast::node_view(r) == NodeV::CustomCall(name@, crate::ast::arg_view(expression)),
    {
        ASTNode::CustomCall(name.to_owned(), expression)
    }

    /// A statement of one line: a primitive, an assignment or a call.
    fn handle_simple(&self, tokens: &Vec<Token>, line: usize) -> (r: Result<ASTNode, LogoError>)
        requires
            self.wf(),
            tokens.len() >= 1,
        ensures
            match r {
                Ok(n) => simple_statement(tokens_view(tokens@), line as nat, self.procs().params)
                    == Ok::<NodeV, ErrorV>(crate::ast::node_view(n)),
                Err(e) => simple_statement(tokens_view(tokens@), line as nat, self.procs().params)
                    == Err::<NodeV, ErrorV>(e@),
            },
    {
        let ghost tv = tokens_view(tokens@);
        let head = &tokens[0];
        assert(tv[0] == head@);
        let n = tokens.len();
        match head.token_type {
            TokenType::Invalid => {
                match self.procedures.func_vars.get(head.souce.as_str()) {
                    None => Err(LogoError::UnExpectedToken(line, head.souce.clone())),
                    Some(ps) => {
                        assert(self.procs().params[head.souce@] == strings_view(ps@));
                        if ps.len() == 0 {
                            if n > 1 {
                                Err(LogoError::TooManyArguments(line, head.souce.clone()))
                            } else {
                                Ok(self.handle_user_defined_fn_call(head.souce.as_str(), None))
                            }
                        } else if n < 2 {
                            Err(LogoError::NoEnoughArguments(line, head.souce.clone()))
                        } else {
                            match parse_expression(tokens, 1, n, &head.souce) {
                                Ok(e) => Ok(
                                    self.handle_user_defined_fn_call(head.souce.as_str(), Some(e)),
                                ),
                                Err(e) => Err(e),
                            }
                        }
                    },
                }
            },
            TokenType::Keyword(k) => {
                if k == Keyword::PenUp || k == Keyword::PenDown {
                    if n != 1 {
                        Err(LogoError::TooManyArguments(line, head.souce.clone()))
                    } else {
                        let f = if k == Keyword::PenUp {
                            FunName::PenUp
                        } else {
                            FunName::PenDown
                        };
                        let e: Vec<Atom> = Vec::new();
                        assert(atoms_view(e@) =~= Seq::<AtomV>::empty());
                        Ok(ASTNode::FunctionCall(f, e))
                    }
                } else {
                    match primitive_fun(k) {
                        Some(f) => {
                            if n < 2 {
                                Err(LogoError::NoEnoughArguments(line, head.souce.clone()))
                            } else {
                                match parse_expression(tokens, 1, n, &head.souce) {
                                    Ok(e) => Ok(ASTNode::FunctionCall(f, e)),
                                    Err(e) => Err(e),
                                }
                            }
                        },
                        None => {
                            if k == Keyword::Make || k == Keyword::AddAssign {
                                if n < 2 {
                                    Err(LogoError::NoEnoughArguments(line, head.souce.clone()))
                                } else if tokens[1].token_type != TokenType::Variable {
                                    assert(tv[1] == tokens@[1]@);
                                    Err(LogoError::UnDefinedVariable(tokens[1].souce.clone()))
                                } else {
                                    assert(tv[1] == tokens@[1]@);
                                    match parse_expression(tokens, 2, n, &head.souce) {
                                        Ok(e) => {
                                            let name = tokens[1].souce.clone();
                                            if k == Keyword::Make {
                                                Ok(ASTNode::Define(name, e))
                                            } else {
                                                Ok(ASTNode::IncrementAssign(name, e))
                                            }
                                        },
                                        Err(e) => Err(e),
                                    }
                                }
                            } else {
                                Err(LogoError::UnExpectedToken(line, head.souce.clone()))
                            }
                        },
                    }
                }
            },
            _ => Err(LogoError::UnExpectedToken(line, head.souce.clone())),
        }
    }

    /// An IF or WHILE line: its condition, then its block up to the `]` line.
    pub fn parse_if_while(&mut self, tokens: &Vec<Token>) -> (r: Result<ASTNode, LogoError>)
        requires
            old(self).wf(),
            1 <= old(self).position() <= old(self).lines().len(),
            tokens.len() >= 1,
            tokens_view(tokens@) == line_tokens(old(self).lines()[old(self).position() - 1]),
            tokens@[0].token_type == TokenType::Keyword(Keyword::If) || tokens@[0].token_type
                == TokenType::Keyword(Keyword::While),
        ensures
            final(self).wf(),
            final(self).lines() == old(self).lines(),
            old(self).position() <= final(self).position() <= final(self).lines().len(),
            ({
                let (sr, se, sp) = line_step(
                    old(self).lines(),
                    old(self).position() - 1,
                    old(self).procs(),
                );
                match r {
                    Ok(n) => sr == Ok::<Option<NodeV>, ErrorV>(Some(crate::ast::node_view(n)))
                        && se == final(self).position() && sp == final(self).procs(),
                    Err(e) => sr == Err::<Option<NodeV>, ErrorV>(e@) && se == final(self).position()
                        && sp == final(self).procs(),
                }
            }),
        decreases old(self).remaining(), 1nat,
    {
        let ghost tv = tokens_view(tokens@);
        assert(tv[0] == tokens@[0]@);
        let line = self.token_source.get_current_line_number();
        let n = tokens.len();
        assert(tv.last() == tokens@[n - 1]@);
        if tokens[n - 1].token_type != TokenType::LSBracket {
            return Err(LogoError::UnvalidIfOrWhile(line));
        }
        let cond = match parse_expression(tokens, 1, n - 1, &tokens[0].souce) {
            Ok(c) => c,
            Err(e) => {
                return Err(e);
            },
        };
        let body = match self.parse_lines(Mode::Block) {
            Ok(b) => b,
            Err(e) => {
                return Err(e);
            },
        };
        let node = if tokens[0].token_type == TokenType::Keyword(Keyword::If) {
            ASTNode::If(cond, body)
        } else {
            ASTNode::While(cond, body)
        };
        proof {
            crate::ast::lemma_node_view_blocks(node);
        }
        Ok(node)
    }

    /// A TO line: records the parameters, then the body up to the `END` line.
    /// It yields no statement.
    pub fn parse_function(&mut self, tokens: &Vec<Token>) -> (r: Result<(), LogoError>)
        requires
            old(self).wf(),
            1 <= old(self).position() <= old(self).lines().len(),
            tokens.len() >= 1,
            tokens_view(tokens@) == line_tokens(old(self).lines()[old(self).position() - 1]),
            tokens@[0].token_type == TokenType::Keyword(Keyword::To),
        ensures
            final(self).wf(),
            final(self).lines() == old(self).lines(),
            old(self).position() <= final(self).position() <= final(self).lines().len(),
            ({
                let (sr, se, sp) = line_step(
                    old(self).lines(),
                    old(self).position() - 1,
                    old(self).procs(),
                );
                match r {
                    Ok(()) => sr == Ok::<Option<NodeV>, ErrorV>(None) && se
                        == final(self).position() && sp == final(self).procs(),
                    Err(e) => sr == Err::<Option<NodeV>, ErrorV>(e@) && se == final(self).position()
                        && sp == final(self).procs(),
                }
            }),
        decreases old(self).remaining(), 1nat,
    {
        let ghost tv = tokens_view(tokens@);
        assert(tv[0] == tokens@[0]@);
        let line = self.token_source.get_current_line_number();
        let n = tokens.len();
        if n < 2 {
            return Err(LogoError::FunctionDefineFailed(line));
        }
        let mut names: Vec<String> = Vec::new();
        let mut k: usize = 2;
        while k < n
            invariant
                self.wf(),
                self.lines() == old(self).lines(),
                self.position() == old(self).position(),
                self.procs() == old(self).procs(),
                1 <= self.position() <= self.lines().len(),
                line == self.position(),
                tv == line_tokens(old(self).lines()[old(self).position() - 1]),
                tv[0].1 == TokenType::Keyword(Keyword::To),
                2 <= k <= n,
                n == tokens.len(),
                tv == tokens_view(tokens@),
                forall|m: int| 2 <= m < k ==> (#[trigger] tv[m]).1 == TokenType::Variable,
                strings_view(names@) == tv.subrange(2, k as int).map_values(
                    |t: (Seq<char>, TokenType)| t.0,
                ),
            decreases n - k,
        {
            assert(tv[k as int] == tokens@[k as int]@);
            if tokens[k].token_type != TokenType::Variable {
                assert(!params_ok(tv));
                return Err(LogoError::FunctionDefineFailed(line));
            }
            let ghost before = names@;
            assert(strings_view(before).len() == before.len());
            assert(before.len() == k - 2);
            let w = tokens[k].souce.clone();
            names.push(w);
            assert forall|i: int| 0 <= i < names@.len() implies #[trigger] strings_view(names@)[i]
                == tv.subrange(2, (k + 1) as int)[i].0 by {
                if i < k - 2 {
                    assert(names@[i] == before[i]);
                    assert(strings_view(before)[i] == tv.subrange(2, k as int).map_values(
                        |t: (Seq<char>, TokenType)| t.0,
                    )[i]);
                } else {
                    assert(names@[i] == w);
                }
            }
            assert(strings_view(names@) =~= tv.subrange(2, (k + 1) as int).map_values(
                |t: (Seq<char>, TokenType)| t.0,
            ));
            k = k + 1;
        }
        assert(params_ok(tv));
        assert(strings_view(names@) == param_names(tv));
        assert(tv[1] == tokens@[1]@);
        let name = tokens[1].souce.clone();
        let ghost pr0 = self.procs();
        proof {
            lemma_map_values_insert(
                self.procedures.func_vars.map(),
                name@,
                names,
                |v: Vec<String>| strings_view(v@),
            );
        }
        self.procedures.func_vars.insert(name.clone(), names);
        assert(self.procs() == ProcsV {
            params: pr0.params.insert(name@, param_names(tv)),
            bodies: pr0.bodies,
        });
        let body = match self.parse_lines(Mode::Body) {
            Ok(b) => b,
            Err(e) => {
                return Err(e);
            },
        };
        let ghost pr1 = self.procs();
        proof {
            lemma_map_values_insert(
                self.procedures.function_table.map(),
                name@,
                body,
                |v: Vec<ASTNode>| nodes_view(v@),
            );
        }
        self.procedures.function_table.insert(name, body);
        assert(self.procs() == ProcsV {
            params: pr1.params,
            bodies: pr1.bodies.insert(name@, nodes_view(body@)),
        });
        Ok(())
    }

    /// The statement on the line just read.
    fn handle_token(&mut self, tokens: Vec<Token>) -> (r: Result<Option<ASTNode>, LogoError>)
        requires
            old(self).wf(),
            1 <= old(self).position() <= old(self).lines().len(),
            tokens.len() >= 1,
            tokens_view(tokens@) == line_tokens(old(self).lines()[old(self).position() - 1]),
        ensures
            final(self).wf(),
            final(self).lines() == old(self).lines(),
            old(self).position() <= final(self).position() <= final(self).lines().len(),
            ({
                let (sr, se, sp) = line_step(
                    old(self).lines(),
                    old(self).position() - 1,
                    old(self).procs(),
                );
                match r {
                    Ok(Some(n)) => sr == Ok::<Option<NodeV>, ErrorV>(
                        Some(crate::ast::node_view(n)),
                    ) && se == final(self).position() && sp == final(self).procs(),
                    Ok(None) => sr == Ok::<Option<NodeV>, ErrorV>(None) && se
                        == final(self).position() && sp == final(self).procs(),
                    Err(e) => sr == Err::<Option<NodeV>, ErrorV>(e@) && se == final(self).position()
                        && sp == final(self).procs(),
                }
            }),
        decreases old(self).remaining(), 2nat,
    {
        let ghost tv = tokens_view(tokens@);
        assert(tv[0] == tokens@[0]@);
        let line = self.token_source.get_current_line_number();
        let head = tokens[0].token_type;
        if head == TokenType::Keyword(Keyword::If) || head == TokenType::Keyword(Keyword::While) {
            match self.parse_if_while(&tokens) {
                Ok(n) => Ok(Some(n)),
                Err(e) => Err(e),
            }
        } else if head == TokenType::Keyword(Keyword::To) {
            match self.parse_function(&tokens) {
                Ok(()) => Ok(None),
                Err(e) => Err(e),
            }
        } else if head == TokenType::Keyword(Keyword::End) {
            Err(LogoError::FunctionDefineFailed(line))
        } else {
            match self.handle_simple(&tokens, line) {
                Ok(n) => Ok(Some(n)),
                Err(e) => Err(e),
            }
        }
    }

    /// Statements up to what ends `mode`: the end of the program, a `]`
    /// line, or an `END` line.
    fn parse_lines(&mut self, mode: Mode) -> (r: Result<Vec<ASTNode>, LogoError>)
        requires
            old(self).wf(),
        ensures
            final(self).wf(),
            final(self).lines() == old(self).lines(),
            old(self).position() <= final(self).position() <= final(self).lines().len(),
            ({
                let (sr, se, sp) = parse_lines(
                    old(self).lines(),
                    old(self).position(),
                    mode,
                    old(self).procs(),
                );
                match r {
                    Ok(v) => sr == Ok::<Seq<NodeV>, ErrorV>(nodes_view(v@)) && se
                        == final(self).position() && sp == final(self).procs(),
                    Err(e) => sr == Err::<Seq<NodeV>, ErrorV>(e@) && se == final(self).position()
                        && sp == final(self).procs(),
                }
            }),
        decreases old(self).remaining(), 0nat,
    {
        let ghost src = self.lines();
        let ghost pos0 = self.position();
        let ghost procs0 = self.procs();
        proof {
            self.token_source.lemma_wf();
        }
        let mut out: Vec<ASTNode> = Vec::new();
        loop
            invariant
                self.wf(),
                self.lines() == src,
                src == old(self).lines(),
                pos0 == old(self).position(),
                procs0 == old(self).procs(),
                0 <= pos0 <= self.position() <= src.len(),
                ({
                    let (r0, e0, pr0) = parse_lines(src, pos0, mode, procs0);
                    let (r1, e1, pr1) = parse_lines(src, self.position(), mode, self.procs());
                    r0 == prepend(nodes_view(out@), r1) && e0 == e1 && pr0 == pr1
                }),
            decreases src.len() - self.position(),
        {
            let ghost pos = self.position();
            let ghost procs = self.procs();
            proof {
                crate::lexer::lemma_next_index(src, pos);
            }
            let next = self.token_source.next_line_token();
            match next {
                None => {
                    let line = self.token_source.get_current_line_number();
                    match mode {
                        Mode::Top => {
                            assert(nodes_view(out@) + Seq::<NodeV>::empty() =~= nodes_view(out@));
                            return Ok(out);
                        },
                        Mode::Block => {
                            return Err(LogoError::UnvalidIfOrWhile(line));
                        },
                        Mode::Body => {
                            return Err(LogoError::FunctionDefineFailed(line));
                        },
                    }
                },
                Some(tokens) => {
                    let ghost j = next_index(src, pos);
                    let ghost tv = tokens_view(tokens@);
                    assert(tv.len() == tokens@.len());
                    assert(words_nonempty(src, j)) by {
                        crate::lexer::lemma_next_index(src, pos);
                    }
                    assert(tokens.len() >= 1);
                    assert(tv[0] == tokens@[0]@);
                    if tokens.len() == 1 && ((mode == Mode::Block && tokens[0].token_type
                        == TokenType::RSBracket) || (mode == Mode::Body && tokens[0].token_type
                        == TokenType::Keyword(Keyword::End))) {
                        assert(nodes_view(out@) + Seq::<NodeV>::empty() =~= nodes_view(out@));
                        return Ok(out);
                    }
                    match self.handle_token(tokens) {
                        Err(e) => {
                            return Err(e);
                        },
                        Ok(None) => {},
                        Ok(Some(n)) => {
                            let ghost before = out@;
                            out.push(n);
                            assert(nodes_view(out@) =~= nodes_view(before).push(
                                crate::ast::node_view(n),
                            ));
                            assert(forall|rest: Seq<NodeV>|
                                nodes_view(before) + (seq![crate::ast::node_view(n)] + rest)
                                    =~= nodes_view(out@) + rest);
                        },
                    }
                },
            }
        }
    }

    /// Parses the whole program; the statements become the root.
    pub fn run(&mut self) -> (r: Result<(), LogoError>)
        requires
            old(self).wf(),
        ensures
            final(self).wf(),
            ({
                let (sr, se, sp) = parse_lines(
                    old(self).lines(),
                    old(self).position(),
                    Mode::Top,
                    old(self).procs(),
                );
                match r {
                    Ok(()) => sr == Ok::<Seq<NodeV>, ErrorV>(final(self).root_view()) && se
                        == final(self).position() && sp == final(self).procs(),
                    Err(e) => sr == Err::<Seq<NodeV>, ErrorV>(e@) && se == final(self).position()
                        && sp == final(self).procs(),
                }
            }),
    {
        match self.parse_lines(Mode::Top) {
            Ok(nodes) => {
                self.root = nodes;
                Ok(())
            },
            Err(e) => Err(e),
        }
    }

    /// The program as one sequence.
    pub fn get_root(self) -> (r: ASTNode)
        ensures
            crate::ast::node_view(r) == NodeV::Sequence(self.root_view()),
    {
        let node = ASTNode::Sequence(self.root);
        proof {
            crate::ast::lemma_node_view_blocks(node);
        }
        node
    }

    /// The statements and the procedure table.
    pub fn into_parts(self) -> (r: (Vec<ASTNode>, Procedures))
        requires
            self.wf(),
        ensures
            r.1.wf(),
            nodes_view(r.0@) == self.root_view(),
            r.1.view_procs() == self.procs(),
    {
        (self.root, self.procedures)
    }
}

/// Parses a whole program given as its lines.
pub fn parse_program_lines(source: Vec<String>) -> (r: Result<(Vec<ASTNode>, Procedures), LogoError>)
    ensures
        match r {
            Ok((nodes, procs)) => procs.wf() && parse_program(strings_view(source@)) == (
                Ok::<Seq<NodeV>, ErrorV>(nodes_view(nodes@)),
                procs.view_procs(),
            ),
            Err(e) => parse_program(strings_view(source@)).0 == Err::<Seq<NodeV>, ErrorV>(e@),
        },
{
    let lexer = crate::lexer::LexerFactory::create_lexer(source);
    let mut parser = Parser::new(lexer);
    match parser.run() {
        Ok(()) => Ok(parser.into_parts()),
        Err(e) => Err(e),
    }
}

pub open spec fn words_nonempty(src: Seq<Seq<char>>, j: int) -> bool {
    0 <= j < src.len() ==> line_tokens(src[j]).len() >= 1
}

} // verus!
