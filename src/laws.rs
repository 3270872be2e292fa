//! Properties of the language that hold for every input, proved over the
//! specifications of the parser and the evaluator.
use crate::ast::{AtomV, NodeV};
use crate::error::ErrorV;
use crate::executor::Command;
use crate::expression::{Snapshot, apply, eval_from, eval_stack, eval_value};
use crate::lexer::{Keyword, Operator, TokenType, lemma_next_index, line_tokens, next_index};
use crate::manager::{Cfg, answer_at, bind, call_effect, command_of, run_block, simple_effect};
use crate::parser::{Mode, ProcsV, expr_from, line_step, parse_lines, primitive_of, simple_statement};
use vstd::prelude::*;

verus! {

/// A primitive line with one literal argument parses to that primitive with
/// that literal, and running it invokes exactly one operation, which carries
/// the literal's value.
pub proof fn law_literal_primitive_line(
    src: Seq<Seq<char>>,
    j: int,
    procs: ProcsV,
    k: Keyword,
    w: Seq<char>,
    t: Seq<char>,
    v: i64,
    ans: Seq<Snapshot>,
    c: Cfg,
    fuel: nat,
)
    requires
        0 <= j < src.len(),
        line_tokens(src[j]) == seq![(w, TokenType::Keyword(k)), (t, TokenType::Number(v))],
        primitive_of(k) is Some,
        command_of(primitive_of(k)->Some_0, v) is Ok,
    ensures
        ({
            let node = NodeV::FunctionCall(primitive_of(k)->Some_0, seq![AtomV::Number(v)]);
            &&& line_step(src, j, procs) == (
                Ok::<Option<NodeV>, ErrorV>(Some(node)),
                j + 1,
                procs,
            )
            &&& run_block(seq![node], procs, ans, c, fuel) == (
                Ok::<(), ErrorV>(()),
                Cfg {
                    vars: c.vars,
                    cmds: c.cmds.push(command_of(primitive_of(k)->Some_0, v)->Ok_0),
                    used: c.used + 1,
                },
            )
        }),
{
    let toks = line_tokens(src[j]);
    let f = primitive_of(k)->Some_0;
    let line = (j + 1) as nat;
    assert(expr_from(toks, 2, 2, w) == Ok::<Seq<AtomV>, ErrorV>(Seq::empty()));
    assert(seq![AtomV::Number(v)] + Seq::<AtomV>::empty() =~= seq![AtomV::Number(v)]);
    assert(expr_from(toks, 1, 2, w) == Ok::<Seq<AtomV>, ErrorV>(seq![AtomV::Number(v)]));
    assert(simple_statement(toks, line, procs.params) == Ok::<NodeV, ErrorV>(
        NodeV::FunctionCall(f, seq![AtomV::Number(v)]),
    ));
    let e = seq![AtomV::Number(v)];
    let snap = crate::manager::answer_at(ans, c.used);
    assert(eval_from(e, 1, c.vars, snap) == Ok::<Seq<i64>, ErrorV>(Seq::empty()));
    assert(eval_stack(e, c.vars, snap) == Ok::<Seq<i64>, ErrorV>(seq![v]));
    assert(Seq::<i64>::empty().push(v) =~= seq![v]);
    let node = NodeV::FunctionCall(f, e);
    assert(line_step(src, j, procs) == (Ok::<Option<NodeV>, ErrorV>(Some(node)), j + 1, procs));
    let stmts = seq![node];
    assert(stmts.drop_first() =~= Seq::<NodeV>::empty());
    let c1 = Cfg {
        vars: c.vars,
        cmds: c.cmds.push(command_of(f, v)->Ok_0),
        used: c.used + 1,
    };
    assert(crate::manager::primitive_value(e, c.vars, snap) == Ok::<i64, ErrorV>(v));
    assert(crate::manager::simple_effect(node, c, snap) == (Ok::<(), ErrorV>(()), c1));
    assert(run_block(stmts.drop_first(), procs, ans, c1, fuel) == (Ok::<(), ErrorV>(()), c1));
}

/// `op a b` applies `op` to `a` and then `b`, in that order.
pub proof fn law_prefix_operand_order(
    op: Operator,
    a: i64,
    b: i64,
    vars: Map<Seq<char>, i64>,
    snap: Snapshot,
)
    ensures
        eval_value(
            seq![AtomV::Operator(op), AtomV::Number(a), AtomV::Number(b)],
            vars,
            snap,
        ) == apply(op, a, b),
{
    let e = seq![AtomV::Operator(op), AtomV::Number(a), AtomV::Number(b)];
    assert(eval_from(e, 3, vars, snap) == Ok::<Seq<i64>, ErrorV>(Seq::empty()));
    assert(eval_from(e, 2, vars, snap) == Ok::<Seq<i64>, ErrorV>(seq![b]));
    assert(seq![b].push(a) =~= seq![b, a]);
    assert(Seq::<i64>::empty().push(b) =~= seq![b]);
    assert(eval_from(e, 1, vars, snap) == Ok::<Seq<i64>, ErrorV>(seq![b, a]));
    let st = seq![b, a];
    assert(st.drop_last().drop_last() =~= Seq::<i64>::empty());
    assert(Seq::<i64>::empty().push(0i64) =~= seq![0i64]);
    match apply(op, a, b) {
        Ok(r) => {
            assert(eval_from(e, 0, vars, snap) == Ok::<Seq<i64>, ErrorV>(
                Seq::<i64>::empty().push(r),
            ));
        },
        Err(_) => {},
    }
}

/// Division by zero fails; it never yields a value.
pub proof fn law_division_by_zero(a: i64, vars: Map<Seq<char>, i64>, snap: Snapshot)
    ensures
        eval_value(
            seq![AtomV::Operator(Operator::Divide), AtomV::Number(a), AtomV::Number(0)],
            vars,
            snap,
        ) == Err::<i64, ErrorV>(ErrorV::DivisionByZero),
{
    law_prefix_operand_order(Operator::Divide, a, 0, vars, snap);
}

/// A name that is not bound, standing alone as an expression, fails with
/// UndefinedVariable naming it.
pub proof fn law_undefined_name(x: Seq<char>, vars: Map<Seq<char>, i64>, snap: Snapshot)
    requires
        !vars.contains_key(x),
    ensures
        eval_value(seq![AtomV::Value(x)], vars, snap) == Err::<i64, ErrorV>(
            ErrorV::UnDefinedVariable(x),
        ),
{
    let e = seq![AtomV::Value(x)];
    assert(eval_from(e, 1, vars, snap) == Ok::<Seq<i64>, ErrorV>(Seq::empty()));
}

/// A name that is not bound makes every expression that holds it fail, and
/// the error names it when the atoms after it read only literals, queries and
/// bound names.
pub proof fn law_undefined_name_in_expression(
    atoms: Seq<AtomV>,
    i: int,
    vars: Map<Seq<char>, i64>,
    snap: Snapshot,
)
    requires
        0 <= i < atoms.len(),
        atoms[i] is Value,
        !vars.contains_key(atoms[i]->Value_0),
    ensures
        eval_stack(atoms, vars, snap) is Err,
        (forall|m: int|
            i < m < atoms.len() ==> match #[trigger] atoms[m] {
                AtomV::Number(_) | AtomV::Query(_) => true,
                AtomV::Value(y) => vars.contains_key(y),
                AtomV::Operator(_) => false,
            }) ==> eval_stack(atoms, vars, snap) == Err::<Seq<i64>, ErrorV>(
            ErrorV::UnDefinedVariable(atoms[i]->Value_0),
        ),
{
    lemma_suffix_ok(atoms, i + 1, vars, snap);
    lemma_err_back(atoms, i, 0, vars, snap);
}

/// A suffix of literals, queries and bound names evaluates without error.
proof fn lemma_suffix_ok(atoms: Seq<AtomV>, i: int, vars: Map<Seq<char>, i64>, snap: Snapshot)
    requires
        0 <= i <= atoms.len(),
    ensures
        (forall|m: int|
            i <= m < atoms.len() ==> match #[trigger] atoms[m] {
                AtomV::Number(_) | AtomV::Query(_) => true,
                AtomV::Value(y) => vars.contains_key(y),
                AtomV::Operator(_) => false,
            }) ==> eval_from(atoms, i, vars, snap) is Ok,
    decreases atoms.len() - i,
{
    if i < atoms.len() {
        lemma_suffix_ok(atoms, i + 1, vars, snap);
    }
}

proof fn lemma_err_back(atoms: Seq<AtomV>, i: int, j: int, vars: Map<Seq<char>, i64>, snap: Snapshot)
    requires
        0 <= j <= i < atoms.len(),
        atoms[i] is Value,
        !vars.contains_key(atoms[i]->Value_0),
    ensures
        eval_from(atoms, j, vars, snap) is Err,
        eval_from(atoms, i + 1, vars, snap) is Ok ==> eval_from(atoms, j, vars, snap) == Err::<
            Seq<i64>,
            ErrorV,
        >(ErrorV::UnDefinedVariable(atoms[i]->Value_0)),
    decreases i - j,
{
    if j < i {
        lemma_err_back(atoms, i, j + 1, vars, snap);
    }
}

/// After a call with parameters returns, every parameter name has exactly
/// the binding it had before the call, or none if it had none.
pub proof fn law_parameters_restored(
    name: Seq<char>,
    e: Seq<AtomV>,
    procs: ProcsV,
    ans: Seq<Snapshot>,
    c: Cfg,
    fuel: nat,
    p: Seq<char>,
)
    requires
        procs.params.contains_key(name),
        procs.params[name].contains(p),
        call_effect(name, Some(e), procs, ans, c, fuel).0 is Ok,
    ensures
        ({
            let after = call_effect(name, Some(e), procs, ans, c, fuel).1.vars;
            &&& after.contains_key(p) == c.vars.contains_key(p)
            &&& c.vars.contains_key(p) ==> after[p] == c.vars[p]
        }),
{
}

/// A primitive line with no argument fails with NotEnoughArguments.
pub proof fn law_missing_argument(
    toks: Seq<(Seq<char>, TokenType)>,
    line: nat,
    params: Map<Seq<char>, Seq<Seq<char>>>,
)
    requires
        toks.len() == 1,
        toks[0].1 is Keyword,
        primitive_of(toks[0].1->Keyword_0) is Some,
    ensures
        simple_statement(toks, line, params) == Err::<NodeV, ErrorV>(
            ErrorV::NoEnoughArguments(line, toks[0].0),
        ),
{
}

/// An IF or WHILE line whose last word is not `[` fails with
/// InvalidIfOrWhile, naming its line.
pub proof fn law_if_without_bracket(src: Seq<Seq<char>>, j: int, procs: ProcsV)
    requires
        0 <= j < src.len(),
        line_tokens(src[j]).len() >= 1,
        line_tokens(src[j])[0].1 == TokenType::Keyword(Keyword::If) || line_tokens(src[j])[0].1
            == TokenType::Keyword(Keyword::While),
        line_tokens(src[j]).last().1 != TokenType::LSBracket,
    ensures
        line_step(src, j, procs).0 == Err::<Option<NodeV>, ErrorV>(
            ErrorV::UnvalidIfOrWhile((j + 1) as nat),
        ),
{
}

/// A call of a procedure without parameters runs its body as it stands: no
/// binding is made or undone, and no snapshot is read for the call itself.
pub proof fn law_zero_arity_call(
    name: Seq<char>,
    procs: ProcsV,
    ans: Seq<Snapshot>,
    c: Cfg,
    fuel: nat,
)
    requires
        procs.params.contains_key(name),
        procs.bodies.contains_key(name),
        procs.params[name].len() == 0,
        fuel > 0,
    ensures
        call_effect(name, None, procs, ans, c, fuel) == run_block(
            procs.bodies[name],
            procs,
            ans,
            c,
            (fuel - 1) as nat,
        ),
{
}

/// A configuration behind earlier operations `pc` and `n` earlier snapshots.
pub open spec fn shift_cfg(c: Cfg, pc: Seq<Command>, n: nat) -> Cfg {
    Cfg { vars: c.vars, cmds: pc + c.cmds, used: n + c.used }
}

pub open spec fn shifted(res: (Result<(), ErrorV>, Cfg), pc: Seq<Command>, n: nat) -> (
    Result<(), ErrorV>,
    Cfg,
) {
    (res.0, shift_cfg(res.1, pc, n))
}

proof fn lemma_answer_shift(pre: Seq<Snapshot>, ans: Seq<Snapshot>, k: nat)
    ensures
        answer_at(pre + ans, pre.len() + k) == answer_at(ans, k),
{
}

proof fn lemma_simple_frame(s: NodeV, c: Cfg, pc: Seq<Command>, n: nat, snap: Snapshot)
    ensures
        simple_effect(s, shift_cfg(c, pc, n), snap) == shifted(simple_effect(s, c, snap), pc, n),
{
    assert forall|x: Command| #[trigger] (pc + c.cmds).push(x) == pc + c.cmds.push(x) by {
        assert((pc + c.cmds).push(x) =~= pc + c.cmds.push(x));
    }
}

/// What a run does depends only on the variables and on the snapshots it
/// reads: earlier operations and earlier snapshots only stand in front of
/// its own.
pub proof fn law_run_frame(
    stmts: Seq<NodeV>,
    procs: ProcsV,
    pre: Seq<Snapshot>,
    ans: Seq<Snapshot>,
    c: Cfg,
    pc: Seq<Command>,
    fuel: nat,
)
    ensures
        run_block(stmts, procs, pre + ans, shift_cfg(c, pc, pre.len()), fuel) == shifted(
            run_block(stmts, procs, ans, c, fuel),
            pc,
            pre.len(),
        ),
    decreases fuel, stmts.len() + 1,
{
    if stmts.len() == 0 {
        return ;
    }
    let n = pre.len();
    let rest = stmts.drop_first();
    let snap = answer_at(ans, c.used);
    lemma_answer_shift(pre, ans, c.used);
    let c0 = Cfg { vars: c.vars, cmds: c.cmds, used: c.used + 1 };
    assert(shift_cfg(c0, pc, n) == Cfg {
        vars: c.vars,
        cmds: pc + c.cmds,
        used: n + c.used + 1,
    });
    match stmts[0] {
        NodeV::Sequence(b) => {
            if fuel > 0 {
                law_run_frame(b, procs, pre, ans, c, pc, (fuel - 1) as nat);
                let (r, c1) = run_block(b, procs, ans, c, (fuel - 1) as nat);
                if r is Ok {
                    law_run_frame(rest, procs, pre, ans, c1, pc, fuel);
                }
            }
        },
        NodeV::If(cond, b) => {
            match eval_value(cond, c.vars, snap) {
                Ok(v) => {
                    if v == 0 {
                        law_run_frame(rest, procs, pre, ans, c0, pc, fuel);
                    } else if fuel > 0 {
                        law_run_frame(b, procs, pre, ans, c0, pc, (fuel - 1) as nat);
                        let (r, c1) = run_block(b, procs, ans, c0, (fuel - 1) as nat);
                        if r is Ok {
                            law_run_frame(rest, procs, pre, ans, c1, pc, fuel);
                        }
                    }
                },
                Err(_) => {},
            }
        },
        NodeV::While(cond, b) => {
            match eval_value(cond, c.vars, snap) {
                Ok(v) => {
                    if v == 0 {
                        law_run_frame(rest, procs, pre, ans, c0, pc, fuel);
                    } else if fuel > 0 {
                        law_run_frame(b, procs, pre, ans, c0, pc, (fuel - 1) as nat);
                        let (r, c1) = run_block(b, procs, ans, c0, (fuel - 1) as nat);
                        if r is Ok {
                            law_run_frame(stmts, procs, pre, ans, c1, pc, (fuel - 1) as nat);
                        }
                    }
                },
                Err(_) => {},
            }
        },
        NodeV::CustomCall(name, arg) => {
            law_call_frame(name, arg, procs, pre, ans, c, pc, fuel);
            let (r, c1) = call_effect(name, arg, procs, ans, c, fuel);
            if r is Ok {
                law_run_frame(rest, procs, pre, ans, c1, pc, fuel);
            }
        },
        s => {
            lemma_simple_frame(s, c, pc, n, snap);
            let (r, c1) = simple_effect(s, c, snap);
            if r is Ok {
                law_run_frame(rest, procs, pre, ans, c1, pc, fuel);
            }
        },
    }
}

/// The same for a call of a procedure.
pub proof fn law_call_frame(
    name: Seq<char>,
    arg: Option<Seq<AtomV>>,
    procs: ProcsV,
    pre: Seq<Snapshot>,
    ans: Seq<Snapshot>,
    c: Cfg,
    pc: Seq<Command>,
    fuel: nat,
)
    ensures
        call_effect(name, arg, procs, pre + ans, shift_cfg(c, pc, pre.len()), fuel) == shifted(
            call_effect(name, arg, procs, ans, c, fuel),
            pc,
            pre.len(),
        ),
    decreases fuel, 0nat,
{
    let n = pre.len();
    let snap = answer_at(ans, c.used);
    lemma_answer_shift(pre, ans, c.used);
    if procs.params.contains_key(name) && procs.bodies.contains_key(name) && fuel > 0 {
        let params = procs.params[name];
        let body = procs.bodies[name];
        if params.len() == 0 {
            if arg is None {
                law_run_frame(body, procs, pre, ans, c, pc, (fuel - 1) as nat);
            }
        } else {
            match arg {
                Some(e) => match eval_stack(e, c.vars, snap) {
                    Ok(st) => {
                        if st.len() == params.len() {
                            let c1 = Cfg {
                                vars: bind(c.vars, params, st, params.len()),
                                cmds: c.cmds,
                                used: c.used + 1,
                            };
                            law_run_frame(body, procs, pre, ans, c1, pc, (fuel - 1) as nat);
                        }
                    },
                    Err(_) => {},
                },
                None => {},
            }
        }
    }
}

/// A procedure without parameters, called twice from the same variables with
/// the same snapshots ahead, ends the same way both times and appends the
/// same operations in the same order.
pub proof fn law_zero_arity_call_repeats(
    name: Seq<char>,
    procs: ProcsV,
    ans1: Seq<Snapshot>,
    c1: Cfg,
    ans2: Seq<Snapshot>,
    c2: Cfg,
    fuel: nat,
)
    requires
        procs.params.contains_key(name),
        procs.params[name].len() == 0,
        c1.vars == c2.vars,
        c1.used <= ans1.len(),
        c2.used <= ans2.len(),
        ans1.skip(c1.used as int) == ans2.skip(c2.used as int),
    ensures
        ({
            let (r1, d1) = call_effect(name, None, procs, ans1, c1, fuel);
            let (r2, d2) = call_effect(name, None, procs, ans2, c2, fuel);
            &&& r1 == r2
            &&& d1.vars == d2.vars
            &&& d1.cmds.skip(c1.cmds.len() as int) == d2.cmds.skip(c2.cmds.len() as int)
        }),
{
    let rest = ans1.skip(c1.used as int);
    let base = Cfg { vars: c1.vars, cmds: Seq::empty(), used: 0 };
    let e = call_effect(name, None, procs, rest, base, fuel);
    assert(ans1 =~= ans1.take(c1.used as int) + rest);
    assert(ans2 =~= ans2.take(c2.used as int) + rest);
    assert(c1 == shift_cfg(base, c1.cmds, c1.used)) by {
        assert(c1.cmds + Seq::<Command>::empty() =~= c1.cmds);
    }
    assert(c2 == shift_cfg(base, c2.cmds, c2.used)) by {
        assert(c2.cmds + Seq::<Command>::empty() =~= c2.cmds);
    }
    law_call_frame(name, None, procs, ans1.take(c1.used as int), rest, base, c1.cmds, fuel);
    law_call_frame(name, None, procs, ans2.take(c2.used as int), rest, base, c2.cmds, fuel);
    assert((c1.cmds + e.1.cmds).skip(c1.cmds.len() as int) =~= e.1.cmds);
    assert((c2.cmds + e.1.cmds).skip(c2.cmds.len() as int) =~= e.1.cmds);
}

/// A program that parses without error is read to its last line.
pub proof fn law_parse_reads_all_lines(src: Seq<Seq<char>>, pos: int, procs: ProcsV)
    requires
        0 <= pos <= src.len(),
        parse_lines(src, pos, Mode::Top, procs).0 is Ok,
    ensures
        parse_lines(src, pos, Mode::Top, procs).1 == src.len(),
    decreases src.len() - pos,
{
    lemma_next_index(src, pos);
    let j = next_index(src, pos);
    if j < src.len() {
        let (r, e1, p1) = line_step(src, j, procs);
        if r is Ok && pos < e1 <= src.len() {
            law_parse_reads_all_lines(src, e1, p1);
        }
    }
}

} // verus!
