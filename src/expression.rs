//! Prefix expressions: which tokens may stand in them, and their value by a
//! reverse scan with a stack.
use crate::ast::{Atom, AtomV, atoms_view};
use crate::error::{ErrorV, LogoError};
use crate::lexer::{Keyword, Operator, Query, Token, TokenType, as_operator, operator_of};
use crate::table::Table;
use vstd::prelude::*;

verus! {

/// The answers of the four queries at one moment.
#[derive(Debug, Clone, Copy, PartialEq, Eq, Structural)]
pub struct Snapshot {
    pub x: i64,
    pub y: i64,
    pub heading: i64,
    pub color: i64,
}

pub open spec fn query_value(s: Snapshot, q: Query) -> i64 {
    match q {
        Query::XCor => s.x,
        Query::YCor => s.y,
        Query::Heading => s.heading,
        Query::Color => s.color,
    }
}

pub open spec fn truth(b: bool) -> i64 {
    if b {
        1
    } else {
        0
    }
}

pub open spec fn checked(v: Option<i64>) -> Result<i64, ErrorV> {
    match v {
        Some(x) => Ok(x),
        None => Err(ErrorV::Overflow),
    }
}

/// `op a b`: comparisons and logic give 1 or 0, arithmetic is exact within
/// `i64`, division truncates toward zero.
pub open spec fn apply(op: Operator, a: i64, b: i64) -> Result<i64, ErrorV> {
    match op {
        Operator::Equal => Ok(truth(a == b)),
        Operator::NotEqual => Ok(truth(a != b)),
        Operator::Greater => Ok(truth(a > b)),
        Operator::Less => Ok(truth(a < b)),
        Operator::And => Ok(truth(a != 0 && b != 0)),
        Operator::Or => Ok(truth(a != 0 || b != 0)),
        Operator::Add => checked(a.checked_add(b)),
        Operator::Subtract => checked(a.checked_sub(b)),
        Operator::Multiply => checked(a.checked_mul(b)),
        Operator::Divide => if b == 0 {
            Err(ErrorV::DivisionByZero)
        } else {
            checked(a.checked_div(b))
        },
    }
}

/// What one atom does to the stack. An operator takes its first operand
/// from the top.
pub open spec fn eval_step(
    stack: Seq<i64>,
    a: AtomV,
    vars: Map<Seq<char>, i64>,
    snap: Snapshot,
) -> Result<Seq<i64>, ErrorV> {
    match a {
        AtomV::Number(v) => Ok(stack.push(v)),
        AtomV::Query(q) => Ok(stack.push(query_value(snap, q))),
        AtomV::Value(x) => if vars.contains_key(x) {
            Ok(stack.push(vars[x]))
        } else {
            Err(ErrorV::UnDefinedVariable(x))
        },
        AtomV::Operator(op) => if stack.len() < 2 {
            Err(ErrorV::NotEnoughOperands)
        } else {
            match apply(op, stack.last(), stack[stack.len() - 2]) {
                Ok(v) => Ok(stack.drop_last().drop_last().push(v)),
                Err(e) => Err(e),
            }
        },
    }
}

/// The stack after scanning `atoms[i..]` from its last atom back to `atoms[i]`.
pub open spec fn eval_from(
    atoms: Seq<AtomV>,
    i: int,
    vars: Map<Seq<char>, i64>,
    snap: Snapshot,
) -> Result<Seq<i64>, ErrorV>
    decreases atoms.len() - i,
{
    if i < 0 || i >= atoms.len() {
        Ok(Seq::empty())
    } else {
        match eval_from(atoms, i + 1, vars, snap) {
            Ok(st) => eval_step(st, atoms[i], vars, snap),
            Err(e) => Err(e),
        }
    }
}

/// The final stack of a whole expression.
pub open spec fn eval_stack(atoms: Seq<AtomV>, vars: Map<Seq<char>, i64>, snap: Snapshot) -> Result<
    Seq<i64>,
    ErrorV,
> {
    eval_from(atoms, 0, vars, snap)
}

/// The value of an expression: the top of its final stack.
pub open spec fn eval_value(atoms: Seq<AtomV>, vars: Map<Seq<char>, i64>, snap: Snapshot) -> Result<
    i64,
    ErrorV,
> {
    match eval_stack(atoms, vars, snap) {
        Ok(st) => if st.len() == 0 {
            Err(ErrorV::NoValue)
        } else {
            Ok(st.last())
        },
        Err(e) => Err(e),
    }
}

proof fn lemma_error_propagates(
    atoms: Seq<AtomV>,
    i: int,
    j: int,
    vars: Map<Seq<char>, i64>,
    snap: Snapshot,
)
    requires
        0 <= j <= i < atoms.len(),
        eval_from(atoms, i, vars, snap) is Err,
    ensures
        eval_from(atoms, j, vars, snap) == eval_from(atoms, i, vars, snap),
    decreases i - j,
{
    if j < i {
        lemma_error_propagates(atoms, i, j + 1, vars, snap);
    }
}

pub fn apply_operator(op: Operator, a: i64, b: i64) -> (r: Result<i64, LogoError>)
    ensures
        match r {
            Ok(v) => apply(op, a, b) == Ok::<i64, ErrorV>(v),
            Err(e) => apply(op, a, b) == Err::<i64, ErrorV>(e@),
        },
{
    match op {
        Operator::Equal => Ok(if a == b { 1 } else { 0 }),
        Operator::NotEqual => Ok(if a != b { 1 } else { 0 }),
        Operator::Greater => Ok(if a > b { 1 } else { 0 }),
        Operator::Less => Ok(if a < b { 1 } else { 0 }),
        Operator::And => Ok(if a != 0 && b != 0 { 1 } else { 0 }),
        Operator::Or => Ok(if a != 0 || b != 0 { 1 } else { 0 }),
        Operator::Add => match a.checked_add(b) {
            Some(v) => Ok(v),
            None => Err(LogoError::Overflow),
        },
        Operator::Subtract => match a.checked_sub(b) {
            Some(v) => Ok(v),
            None => Err(LogoError::Overflow),
        },
        Operator::Multiply => match a.checked_mul(b) {
            Some(v) => Ok(v),
            None => Err(LogoError::Overflow),
        },
        Operator::Divide => if b == 0 {
            Err(LogoError::DivisionByZero)
        } else {
            match a.checked_div(b) {
                Some(v) => Ok(v),
                None => Err(LogoError::Overflow),
            }
        },
    }
}

/// Scans the expression from its end: literals and queries push their value,
/// a name pushes its bound value, an operator pops two values (the first from
/// the top) and pushes its result. Returns the final stack.
pub fn evaluate_prefix(expression: &Vec<Atom>, vars: &Table<i64>, snap: &Snapshot) -> (r: Result<
    Vec<i64>,
    LogoError,
>)
    requires
        vars.wf(),
    ensures
        match r {
            Ok(st) => eval_stack(atoms_view(expression@), vars.map(), *snap) == Ok::<
                Seq<i64>,
                ErrorV,
            >(st@),
            Err(e) => eval_stack(atoms_view(expression@), vars.map(), *snap) == Err::<
                Seq<i64>,
                ErrorV,
            >(e@),
        },
{
    let ghost av = atoms_view(expression@);
    let ghost m = vars.map();
    let mut stack: Vec<i64> = Vec::new();
    let mut i: usize = expression.len();
    while i > 0
        invariant
            i <= expression.len(),
            av == atoms_view(expression@),
            m == vars.map(),
            vars.wf(),
            eval_from(av, i as int, m, *snap) == Ok::<Seq<i64>, ErrorV>(stack@),
        decreases i,
    {
        i = i - 1;
        let ghost st0 = stack@;
        assert(av[i as int] == expression@[i as int]@);
        let step: Result<(), LogoError> = match &expression[i] {
            Atom::Number(v) => {
                stack.push(*v);
                Ok(())
            },
            Atom::Query(q) => {
                let v = match q {
                    Query::XCor => snap.x,
                    Query::YCor => snap.y,
                    Query::Heading => snap.heading,
                    Query::Color => snap.color,
                };
                stack.push(v);
                Ok(())
            },
            Atom::Value(x) => match vars.get(x.as_str()) {
                Some(v) => {
                    stack.push(*v);
                    Ok(())
                },
                None => Err(LogoError::UnDefinedVariable(x.clone())),
            },
            Atom::Operator(op) => {
                if stack.len() < 2 {
                    Err(LogoError::NotEnoughOperands)
                } else {
                    let a = stack.pop().unwrap();
                    let b = stack.pop().unwrap();
                    match apply_operator(*op, a, b) {
                        Ok(v) => {
                            stack.push(v);
                            assert(stack@ =~= st0.drop_last().drop_last().push(v));
                            Ok(())
                        },
                        Err(e) => Err(e),
                    }
                }
            },
        };
        match step {
            Ok(()) => {},
            Err(e) => {
                proof {
                    lemma_error_propagates(av, i as int, 0, m, *snap);
                }
                return Err(e);
            },
        }
    }
    Ok(stack)
}

/// The atom a token stands for inside an expression, if any.
pub open spec fn atom_of(t: (Seq<char>, TokenType)) -> Option<AtomV> {
    match t.1 {
        TokenType::Number(v) => Some(AtomV::Number(v)),
        TokenType::Query(q) => Some(AtomV::Query(q)),
        TokenType::Procedure => Some(AtomV::Value(t.0)),
        TokenType::Keyword(k) => match operator_of(k) {
            Some(op) => Some(AtomV::Operator(op)),
            None => None,
        },
        _ => None,
    }
}

/// Literals, queries, value references and the ten operators may stand in
/// an expression.
pub fn is_expression(token: &Token) -> (r: Option<Atom>)
    ensures
        match r {
            Some(a) => atom_of(token@) == Some(a@),
            None => atom_of(token@) is None,
        },
{
    match token.token_type {
        TokenType::Number(v) => Some(Atom::Number(v)),
        TokenType::Query(q) => Some(Atom::Query(q)),
        TokenType::Procedure => Some(Atom::Value(token.souce.clone())),
        TokenType::Keyword(k) => match as_operator(k) {
            Some(op) => Some(Atom::Operator(op)),
            None => None,
        },
        _ => None,
    }
}

} // verus!
