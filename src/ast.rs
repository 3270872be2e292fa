//! Statements and expressions, and their mathematical views.
use crate::lexer::{Operator, Query};
use vstd::prelude::*;

verus! {

/// The drawing primitives.
#[derive(Debug, Clone, Copy, PartialEq, Eq, Structural)]
pub enum FunName {
    PenUp,
    PenDown,
    Foreward,
    Back,
    Left,
    Right,
    SetColor,
    Turn,
    SetHeading,
    SetXCoordinate,
    SetYCoordinate,
}

/// One element of a prefix expression.
#[derive(Debug, Clone)]
pub enum Atom {
    Number(i64),
    Query(Query),
    Operator(Operator),
    /// The value of the named variable.
    Value(String),
}

pub enum AtomV {
    Number(i64),
    Query(Query),
    Operator(Operator),
    Value(Seq<char>),
}

impl View for Atom {
    type V = AtomV;

    open spec fn view(&self) -> AtomV {
        match self {
            Atom::Number(v) => AtomV::Number(*v),
            Atom::Query(q) => AtomV::Query(*q),
            Atom::Operator(o) => AtomV::Operator(*o),
            Atom::Value(s) => AtomV::Value(s@),
        }
    }
}

pub open spec fn atoms_view(v: Seq<Atom>) -> Seq<AtomV> {
    v.map_values(|a: Atom| a@)
}

pub open spec fn arg_view(a: Option<Vec<Atom>>) -> Option<Seq<AtomV>> {
    match a {
        Some(e) => Some(atoms_view(e@)),
        None => None,
    }
}

/// A statement. An expression is a sequence of atoms in prefix order.
#[derive(Debug)]
pub enum ASTNode {
    Sequence(Vec<ASTNode>),
    /// A primitive and its argument (empty for the pen primitives).
    FunctionCall(FunName, Vec<Atom>),
    Define(String, Vec<Atom>),
    IncrementAssign(String, Vec<Atom>),
    If(Vec<Atom>, Vec<ASTNode>),
    While(Vec<Atom>, Vec<ASTNode>),
    /// A call of a procedure; the expression supplies every parameter.
    CustomCall(String, Option<Vec<Atom>>),
}

pub enum NodeV {
    Sequence(Seq<NodeV>),
    FunctionCall(FunName, Seq<AtomV>),
    Define(Seq<char>, Seq<AtomV>),
    IncrementAssign(Seq<char>, Seq<AtomV>),
    If(Seq<AtomV>, Seq<NodeV>),
    While(Seq<AtomV>, Seq<NodeV>),
    CustomCall(Seq<char>, Option<Seq<AtomV>>),
}

pub open spec fn node_view(n: ASTNode) -> NodeV
    decreases n,
{
    match n {
        ASTNode::Sequence(b) => NodeV::Sequence(
            Seq::new(
                b@.len(),
                |i: int|
                    if 0 <= i < b.len() {
                        node_view(b[i])
                    } else {
                        NodeV::Sequence(Seq::empty())
                    },
            ),
        ),
        ASTNode::FunctionCall(f, e) => NodeV::FunctionCall(f, atoms_view(e@)),
        ASTNode::Define(x, e) => NodeV::Define(x@, atoms_view(e@)),
        ASTNode::IncrementAssign(x, e) => NodeV::IncrementAssign(x@, atoms_view(e@)),
        ASTNode::If(c, b) => NodeV::If(
            atoms_view(c@),
            Seq::new(
                b@.len(),
                |i: int|
                    if 0 <= i < b.len() {
                        node_view(b[i])
                    } else {
                        NodeV::Sequence(Seq::empty())
                    },
            ),
        ),
        ASTNode::While(c, b) => NodeV::While(
            atoms_view(c@),
            Seq::new(
                b@.len(),
                |i: int|
                    if 0 <= i < b.len() {
                        node_view(b[i])
                    } else {
                        NodeV::Sequence(Seq::empty())
                    },
            ),
        ),
        ASTNode::CustomCall(x, a) => NodeV::CustomCall(x@, arg_view(a)),
    }
}

pub open spec fn nodes_view(v: Seq<ASTNode>) -> Seq<NodeV> {
    v.map_values(|n: ASTNode| node_view(n))
}

/// The blocks of a node are viewed element by element.
pub proof fn lemma_node_view_blocks(n: ASTNode)
    ensures
        match n {
            ASTNode::Sequence(b) => node_view(n) == NodeV::Sequence(nodes_view(b@)),
            ASTNode::If(c, b) => node_view(n) == NodeV::If(atoms_view(c@), nodes_view(b@)),
            ASTNode::While(c, b) => node_view(n) == NodeV::While(atoms_view(c@), nodes_view(b@)),
            _ => true,
        },
{
    match n {
        ASTNode::Sequence(b) => {
            assert(node_view(n)->Sequence_0 =~= nodes_view(b@));
        },
        ASTNode::If(c, b) => {
            assert(node_view(n)->If_1 =~= nodes_view(b@));
        },
        ASTNode::While(c, b) => {
            assert(node_view(n)->While_1 =~= nodes_view(b@));
        },
        _ => {},
    }
}

} // verus!
