//! The evaluator: runs statements against the variables, the procedure table
//! and the drawing collaborator.
//!
//! Every expression reads the collaborator's four queries once, just before it
//! is evaluated; the queries change nothing, so this is the same as reading
//! each one where it occurs. A run is given a budget of fuel: each nested
//! block, loop round and procedure call spends one, and a run that spends it
//! all stops with `OutOfFuel`.
use crate::ast::{ASTNode, AtomV, FunName, NodeV, nodes_view};
use crate::error::{ErrorV, LogoError};
use crate::executor::{Command, Executor, perform, snapshot};
use crate::expression::{Snapshot, eval_stack, eval_value, evaluate_prefix};
use crate::parser::{ProcsV, Procedures};
use crate::table::Table;
use crate::text::strings_view;
use vstd::prelude::*;

verus! {

/// The evaluator's state as the semantics sees it: the variables, the
/// operations invoked so far, and how many query snapshots have been read.
pub struct Cfg {
    pub vars: Map<Seq<char>, i64>,
    pub cmds: Seq<Command>,
    pub used: nat,
}

/// The snapshot read at position `k` of the stream; a stream that has run
/// out reads as all zeros.
pub open spec fn answer_at(ans: Seq<Snapshot>, k: nat) -> Snapshot {
    if k < ans.len() {
        ans[k as int]
    } else {
        Snapshot { x: 0, y: 0, heading: 0, color: 0 }
    }
}

/// The operation a primitive performs with the value `v`.
pub open spec fn command_of(f: FunName, v: i64) -> Result<Command, ErrorV> {
    match f {
        FunName::PenUp => Ok(Command::PenUp),
        FunName::PenDown => Ok(Command::PenDown),
        FunName::Foreward => Ok(Command::Forward(v)),
        FunName::Back => Ok(Command::Back(v)),
        FunName::Left => Ok(Command::Left(v)),
        FunName::Right => Ok(Command::Right(v)),
        FunName::SetColor => if 0 <= v <= 15 {
            Ok(Command::SetColor(v as u32))
        } else {
            Err(ErrorV::ColorOutOfRange(v))
        },
        FunName::Turn => Ok(Command::Turn(v)),
        FunName::SetHeading => Ok(Command::SetHeading(v)),
        FunName::SetXCoordinate => Ok(Command::SetX(v)),
        FunName::SetYCoordinate => Ok(Command::SetY(v)),
    }
}

/// A primitive's argument: the single value its expression leaves.
pub open spec fn primitive_value(e: Seq<AtomV>, vars: Map<Seq<char>, i64>, snap: Snapshot) -> Result<
    i64,
    ErrorV,
> {
    match eval_stack(e, vars, snap) {
        Ok(st) => if st.len() == 0 {
            Err(ErrorV::NoValue)
        } else if st.len() > 1 {
            Err(ErrorV::UnusedOperands)
        } else {
            Ok(st[0])
        },
        Err(x) => Err(x),
    }
}

/// The variables after binding the first `n` parameters in declared order:
/// `params[k]` gets `vals[vals.len() - 1 - k]`, the `k`-th value popped from
/// the stack, so the first parameter gets the value written first.
pub open spec fn bind(
    vars: Map<Seq<char>, i64>,
    params: Seq<Seq<char>>,
    vals: Seq<i64>,
    n: nat,
) -> Map<Seq<char>, i64>
    decreases n,
{
    if n == 0 || n > params.len() {
        vars
    } else {
        bind(vars, params, vals, (n - 1) as nat).insert(params[n - 1], vals[vals.len() - n])
    }
}

/// After a call: each parameter name has its binding from before the call
/// back, or none if it had none; every other name keeps its binding from
/// after the body.
pub open spec fn restore(
    after: Map<Seq<char>, i64>,
    before: Map<Seq<char>, i64>,
    params: Seq<Seq<char>>,
) -> Map<Seq<char>, i64> {
    Map::new(
        |k: Seq<char>|
            if params.contains(k) {
                before.contains_key(k)
            } else {
                after.contains_key(k)
            },
        |k: Seq<char>|
            if params.contains(k) {
                before[k]
            } else {
                after[k]
            },
    )
}

/// The effect of a primitive, an assignment or an increment, given the
/// snapshot its expression reads.
pub open spec fn simple_effect(s: NodeV, c: Cfg, snap: Snapshot) -> (Result<(), ErrorV>, Cfg) {
    let c0 = Cfg { vars: c.vars, cmds: c.cmds, used: c.used + 1 };
    match s {
        NodeV::FunctionCall(f, e) => if f == FunName::PenUp || f == FunName::PenDown {
            (Ok(()), Cfg { vars: c.vars, cmds: c.cmds.push(command_of(f, 0)->Ok_0), used: c.used })
        } else {
            match primitive_value(e, c.vars, snap) {
                Err(x) => (Err(x), c0),
                Ok(v) => match command_of(f, v) {
                    Err(x) => (Err(x), c0),
                    Ok(cmd) => (Ok(()), Cfg { vars: c.vars, cmds: c.cmds.push(cmd), used: c.used + 1 }),
                },
            }
        },
        NodeV::Define(x, e) => match eval_value(e, c.vars, snap) {
            Err(err) => (Err(err), c0),
            Ok(v) => (Ok(()), Cfg { vars: c.vars.insert(x, v), cmds: c.cmds, used: c.used + 1 }),
        },
        NodeV::IncrementAssign(x, e) => match eval_value(e, c.vars, snap) {
            Err(err) => (Err(err), c0),
            Ok(v) => if !c.vars.contains_key(x) {
                (Err(ErrorV::UnDefinedVariable(x)), c0)
            } else {
                match c.vars[x].checked_add(v) {
                    None => (Err(ErrorV::Overflow), c0),
                    Some(sum) => (
                        Ok(()),
                        Cfg { vars: c.vars.insert(x, sum), cmds: c.cmds, used: c.used + 1 },
                    ),
                }
            },
        },
        _ => (Ok(()), c),
    }
}

/// A call of the procedure `name`: the parameters are bound to the values of
/// `arg`, the body runs, and the parameters' earlier bindings come back.
pub open spec fn call_effect(
    name: Seq<char>,
    arg: Option<Seq<AtomV>>,
    procs: ProcsV,
    ans: Seq<Snapshot>,
    c: Cfg,
    fuel: nat,
) -> (Result<(), ErrorV>, Cfg)
    decreases fuel, 0nat,
{
    let snap = answer_at(ans, c.used);
    let c0 = Cfg { vars: c.vars, cmds: c.cmds, used: c.used + 1 };
    if !procs.params.contains_key(name) || !procs.bodies.contains_key(name) {
        (Err(ErrorV::UnknownProcedure(name)), c)
    } else {
        let params = procs.params[name];
        let body = procs.bodies[name];
        if params.len() == 0 {
            if arg is Some {
                (Err(ErrorV::ParameterCountMismatch(name)), c)
            } else if fuel == 0 {
                (Err(ErrorV::OutOfFuel), c)
            } else {
                run_block(body, procs, ans, c, (fuel - 1) as nat)
            }
        } else {
            match arg {
                None => (Err(ErrorV::ParameterCountMismatch(name)), c),
                Some(e) => match eval_stack(e, c.vars, snap) {
                    Err(x) => (Err(x), c0),
                    Ok(st) => if st.len() != params.len() {
                        (Err(ErrorV::ParameterCountMismatch(name)), c0)
                    } else if fuel == 0 {
                        (Err(ErrorV::OutOfFuel), c0)
                    } else {
                        let c1 = Cfg {
                            vars: bind(c.vars, params, st, params.len()),
                            cmds: c.cmds,
                            used: c.used + 1,
                        };
                        let (r, c2) = run_block(body, procs, ans, c1, (fuel - 1) as nat);
                        if r is Err {
                            (r, c2)
                        } else {
                            (
                                Ok(()),
                                Cfg {
                                    vars: restore(c2.vars, c.vars, params),
                                    cmds: c2.cmds,
                                    used: c2.used,
                                },
                            )
                        }
                    },
                },
            }
        }
    }
}

/// Runs `stmts` in order. `ans` holds the query snapshots in the order they
/// are read; `fuel` bounds the number of nested blocks, loop rounds and
/// calls. The result and the state when the run stops.
pub open spec fn run_block(
    stmts: Seq<NodeV>,
    procs: ProcsV,
    ans: Seq<Snapshot>,
    c: Cfg,
    fuel: nat,
) -> (Result<(), ErrorV>, Cfg)
    decreases fuel, stmts.len() + 1,
{
    if stmts.len() == 0 {
        (Ok(()), c)
    } else {
        let rest = stmts.drop_first();
        let snap = answer_at(ans, c.used);
        let c0 = Cfg { vars: c.vars, cmds: c.cmds, used: c.used + 1 };
        match stmts[0] {
            NodeV::Sequence(b) => if fuel == 0 {
                (Err(ErrorV::OutOfFuel), c)
            } else {
                let (r, c1) = run_block(b, procs, ans, c, (fuel - 1) as nat);
                if r is Err {
                    (r, c1)
                } else {
                    run_block(rest, procs, ans, c1, fuel)
                }
            },
            NodeV::If(cond, b) => match eval_value(cond, c.vars, snap) {
                Err(x) => (Err(x), c0),
                Ok(v) => if v == 0 {
                    run_block(rest, procs, ans, c0, fuel)
                } else if fuel == 0 {
                    (Err(ErrorV::OutOfFuel), c0)
                } else {
                    let (r, c1) = run_block(b, procs, ans, c0, (fuel - 1) as nat);
                    if r is Err {
                        (r, c1)
                    } else {
                        run_block(rest, procs, ans, c1, fuel)
                    }
                },
            },
            NodeV::While(cond, b) => match eval_value(cond, c.vars, snap) {
                Err(x) => (Err(x), c0),
                Ok(v) => if v == 0 {
                    run_block(rest, procs, ans, c0, fuel)
                } else if fuel == 0 {
                    (Err(ErrorV::OutOfFuel), c0)
                } else {
                    let (r, c1) = run_block(b, procs, ans, c0, (fuel - 1) as nat);
                    if r is Err {
                        (r, c1)
                    } else {
                        run_block(stmts, procs, ans, c1, (fuel - 1) as nat)
                    }
                },
            },
            NodeV::CustomCall(name, arg) => {
                let (r, c1) = call_effect(name, arg, procs, ans, c, fuel);
                if r is Err {
                    (r, c1)
                } else {
                    run_block(rest, procs, ans, c1, fuel)
                }
            },
            s => {
                let (r, c1) = simple_effect(s, c, snap);
                if r is Err {
                    (r, c1)
                } else {
                    run_block(rest, procs, ans, c1, fuel)
                }
            },
        }
    }
}

/// `ans` begins with `cur`.
pub open spec fn extends(ans: Seq<Snapshot>, cur: Seq<Snapshot>) -> bool {
    cur.len() <= ans.len() && forall|k: int| 0 <= k < cur.len() ==> ans[k] == cur[k]
}

/// What running the statement at the head of `here` does: either the run
/// goes on with `next` from `c_new` with `f1` fuel, or it stops with the error.
pub open spec fn stmt_post(
    here: Seq<NodeV>,
    next: Seq<NodeV>,
    pv: ProcsV,
    ans: Seq<Snapshot>,
    c_old: Cfg,
    fuel: nat,
    r: Result<u64, LogoError>,
    c_new: Cfg,
) -> bool {
    match r {
        Ok(f1) => run_block(here, pv, ans, c_old, fuel) == run_block(next, pv, ans, c_new, f1 as nat),
        Err(e) => run_block(here, pv, ans, c_old, fuel) == (Err::<(), ErrorV>(e@), c_new),
    }
}

pub open spec fn unit_view(r: Result<(), LogoError>) -> Result<(), ErrorV> {
    match r {
        Ok(()) => Ok(()),
        Err(e) => Err(e@),
    }
}

/// The evaluator: the variables, and a record of the operations invoked and
/// the query snapshots read.
pub struct Manager {
    variables: Table<i64>,
    trace: Ghost<Seq<Command>>,
    answers: Ghost<Seq<Snapshot>>,
}

impl Manager {
    pub closed spec fn wf(&self) -> bool {
        self.variables.wf()
    }

    pub closed spec fn vars(&self) -> Map<Seq<char>, i64> {
        self.variables.map()
    }

    /// The operations invoked so far, in order.
    pub closed spec fn trace(&self) -> Seq<Command> {
        self.trace@
    }

    /// The query snapshots read so far, in order.
    pub closed spec fn answers(&self) -> Seq<Snapshot> {
        self.answers@
    }

    pub open spec fn cfg(&self) -> Cfg {
        Cfg { vars: self.vars(), cmds: self.trace(), used: self.answers().len() }
    }

    pub fn new() -> (r: Manager)
        ensures
            r.wf(),
            r.vars() == Map::<Seq<char>, i64>::empty(),
            r.trace() == Seq::<Command>::empty(),
            r.answers() == Seq::<Snapshot>::empty(),
    {
        Manager { variables: Table::new(), trace: Ghost(Seq::empty()), answers: Ghost(Seq::empty()) }
    }

    /// The value bound to `name`, if any.
    pub fn get_variable_val(&self, name: &str) -> (r: Option<i64>)
        requires
            self.wf(),
        ensures
            r == (if self.vars().contains_key(name@) {
                Some(self.vars()[name@])
            } else {
                None::<i64>
            }),
    {
        match self.variables.get(name) {
            Some(v) => Some(*v),
            None => None,
        }
    }

    /// The final stack of `expression` over the current variables.
    pub fn evaluate_prefix(&self, expression: &Vec<crate::ast::Atom>, snap: &Snapshot) -> (r: Result<
        Vec<i64>,
        LogoError,
    >)
        requires
            self.wf(),
        ensures
            match r {
                Ok(st) => eval_stack(crate::ast::atoms_view(expression@), self.vars(), *snap) == Ok::<
                    Seq<i64>,
                    ErrorV,
                >(st@),
                Err(e) => eval_stack(crate::ast::atoms_view(expression@), self.vars(), *snap)
                    == Err::<Seq<i64>, ErrorV>(e@),
            },
    {
        evaluate_prefix(expression, &self.variables, snap)
    }

    /// The value of `expression`: the top of its final stack.
    fn value_of(&self, expression: &Vec<crate::ast::Atom>, snap: &Snapshot) -> (r: Result<
        i64,
        LogoError,
    >)
        requires
            self.wf(),
        ensures
            match r {
                Ok(v) => eval_value(crate::ast::atoms_view(expression@), self.vars(), *snap) == Ok::<
                    i64,
                    ErrorV,
                >(v),
                Err(e) => eval_value(crate::ast::atoms_view(expression@), self.vars(), *snap)
                    == Err::<i64, ErrorV>(e@),
            },
    {
        let st = match self.evaluate_prefix(expression, snap) {
            Ok(st) => st,
            Err(e) => {
                return Err(e);
            },
        };
        if st.len() == 0 {
            Err(LogoError::NoValue)
        } else {
            Ok(st[st.len() - 1])
        }
    }

    /// Reads the four queries and records the snapshot.
    fn read_snapshot<E: Executor>(&mut self, executor: &E) -> (r: Snapshot)
        requires
            old(self).wf(),
        ensures
            final(self).wf(),
            final(self).vars() == old(self).vars(),
            final(self).trace() == old(self).trace(),
            final(self).answers() == old(self).answers().push(r),
    {
        let snap = snapshot(executor);
        self.answers = Ghost(self.answers@.push(snap));
        snap
    }

    /// Invokes `c` and records it.
    fn record<E: Executor>(&mut self, executor: &mut E, c: Command)
        requires
            old(self).wf(),
        ensures
            final(self).wf(),
            final(self).vars() == old(self).vars(),
            final(self).trace() == old(self).trace().push(c),
            final(self).answers() == old(self).answers(),
    {
        perform(executor, c);
        self.trace = Ghost(self.trace@.push(c));
    }

    /// A primitive with an argument, an assignment or an increment, whose
    /// expression reads `snap`.
    fn simple_step<E: Executor>(&mut self, node: &ASTNode, snap: &Snapshot, executor: &mut E) -> (r:
        Result<(), LogoError>)
        requires
            old(self).wf(),
            old(self).answers().len() >= 1,
            match *node {
                ASTNode::FunctionCall(f, _) => f != FunName::PenUp && f != FunName::PenDown,
                ASTNode::Define(_, _) | ASTNode::IncrementAssign(_, _) => true,
                _ => false,
            },
        ensures
            final(self).wf(),
            final(self).answers() == old(self).answers(),
            ({
                let c = Cfg {
                    vars: old(self).vars(),
                    cmds: old(self).trace(),
                    used: (old(self).answers().len() - 1) as nat,
                };
                let (sr, sc) = simple_effect(crate::ast::node_view(*node), c, *snap);
                unit_view(r) == sr && sc == final(self).cfg()
            }),
    {
        match node {
            ASTNode::FunctionCall(f, e) => {
                let st = match self.evaluate_prefix(e, snap) {
                    Ok(st) => st,
                    Err(x) => {
                        return Err(x);
                    },
                };
                if st.len() == 0 {
                    return Err(LogoError::NoValue);
                }
                if st.len() > 1 {
                    return Err(LogoError::UnusedOperands);
                }
                let v = st[0];
                let c = match f {
                    FunName::Foreward => Command::Forward(v),
                    FunName::Back => Command::Back(v),
                    FunName::Left => Command::Left(v),
                    FunName::Right => Command::Right(v),
                    FunName::SetColor => {
                        if 0 <= v && v <= 15 {
                            Command::SetColor(v as u32)
                        } else {
                            return Err(LogoError::ColorOutOfRange(v));
                        }
                    },
                    FunName::Turn => Command::Turn(v),
                    FunName::SetHeading => Command::SetHeading(v),
                    FunName::SetXCoordinate => Command::SetX(v),
                    FunName::SetYCoordinate => Command::SetY(v),
                    FunName::PenUp => Command::PenUp,
                    FunName::PenDown => Command::PenDown,
                };
                self.record(executor, c);
                Ok(())
            },
            ASTNode::Define(x, e) => {
                let v = match self.value_of(e, snap) {
                    Ok(v) => v,
                    Err(err) => {
                        return Err(err);
                    },
                };
                self.variables.insert(x.clone(), v);
                Ok(())
            },
            ASTNode::IncrementAssign(x, e) => {
                let v = match self.value_of(e, snap) {
                    Ok(v) => v,
                    Err(err) => {
                        return Err(err);
                    },
                };
                let old_v = match self.variables.get(x.as_str()) {
                    Some(o) => *o,
                    None => {
                        return Err(LogoError::UnDefinedVariable(x.clone()));
                    },
                };
                match old_v.checked_add(v) {
                    Some(sum) => {
                        self.variables.insert(x.clone(), sum);
                        Ok(())
                    },
                    None => Err(LogoError::Overflow),
                }
            },
            _ => Ok(()),
        }
    }

    /// A call of the procedure `name` with the argument expression `arg`.
    fn call_procedure<E: Executor>(
        &mut self,
        name: &String,
        arg: &Option<Vec<crate::ast::Atom>>,
        executor: &mut E,
        procedures: &Procedures,
        fuel: u64,
    ) -> (r: Result<(), LogoError>)
        requires
            old(self).wf(),
            procedures.wf(),
        ensures
            final(self).wf(),
            extends(final(self).answers(), old(self).answers()),
            forall|ans: Seq<Snapshot>|
                extends(ans, final(self).answers()) ==> {
                    let (sr, sc) = #[trigger] call_effect(
                        name@,
                        crate::ast::arg_view(*arg),
                        procedures.view_procs(),
                        ans,
                        old(self).cfg(),
                        fuel as nat,
                    );
                    unit_view(r) == sr && sc == final(self).cfg()
                },
        decreases fuel, 0nat,
    {
        let ghost pv = procedures.view_procs();
        let ghost c = self.cfg();
        let params = match procedures.func_vars.get(name.as_str()) {
            Some(p) => p,
            None => {
                return Err(LogoError::UnknownProcedure(name.clone()));
            },
        };
        let body = match procedures.function_table.get(name.as_str()) {
            Some(b) => b,
            None => {
                return Err(LogoError::UnknownProcedure(name.clone()));
            },
        };
        let ghost pnames = strings_view(params@);
        assert(pv.params[name@] == pnames);
        assert(pv.bodies[name@] == nodes_view(body@));
        let n = params.len();
        if n == 0 {
            if arg.is_some() {
                return Err(LogoError::ParameterCountMismatch(name.clone()));
            }
            if fuel == 0 {
                return Err(LogoError::OutOfFuel);
            }
            let r = self.run_block(body, executor, procedures, fuel - 1);
            assert forall|ans: Seq<Snapshot>| extends(ans, self.answers()) implies ({
                let (sr, sc) = #[trigger] call_effect(
                    name@,
                    crate::ast::arg_view(*arg),
                    pv,
                    ans,
                    c,
                    fuel as nat,
                );
                unit_view(r) == sr && sc == self.cfg()
            }) by {
                assert(call_effect(name@, crate::ast::arg_view(*arg), pv, ans, c, fuel as nat)
                    == run_block(nodes_view(body@), pv, ans, c, (fuel - 1) as nat));
            }
            return r;
        }
        let e = match arg {
            Some(e) => e,
            None => {
                return Err(LogoError::ParameterCountMismatch(name.clone()));
            },
        };
        let snap = self.read_snapshot(executor);
        let ghost a_snap = self.answers();
        let st = match evaluate_prefix(e, &self.variables, &snap) {
            Ok(st) => st,
            Err(x) => {
                return Err(x);
            },
        };
        if st.len() != n {
            return Err(LogoError::ParameterCountMismatch(name.clone()));
        }
        if fuel == 0 {
            return Err(LogoError::OutOfFuel);
        }
        let ghost before = self.vars();
        let mut saved: Vec<Option<i64>> = Vec::new();
        let mut k: usize = 0;
        while k < n
            invariant
                self.wf(),
                self.vars() == before,
                k <= n,
                n == params.len(),
                pnames == strings_view(params@),
                saved.len() == k,
                forall|m: int|
                    0 <= m < k ==> #[trigger] saved@[m] == (if before.contains_key(pnames[m]) {
                        Some(before[pnames[m]])
                    } else {
                        None::<i64>
                    }),
            decreases n - k,
        {
            assert(pnames[k as int] == params@[k as int]@);
            let v = self.get_variable_val(params[k].as_str());
            saved.push(v);
            k = k + 1;
        }
        let mut k: usize = 0;
        while k < n
            invariant
                self.wf(),
                k <= n,
                n == params.len(),
                n == st.len(),
                pnames == strings_view(params@),
                self.vars() == bind(before, pnames, st@, k as nat),
                self.trace() == c.cmds,
                self.answers() == old(self).answers().push(snap),
                c == old(self).cfg(),
            decreases n - k,
        {
            assert(pnames[k as int] == params@[k as int]@);
            self.variables.insert(params[k].clone(), st[n - 1 - k]);
            k = k + 1;
        }
        let ghost c1 = self.cfg();
        assert(c1 == Cfg {
            vars: bind(c.vars, pnames, st@, pnames.len()),
            cmds: c.cmds,
            used: c.used + 1,
        });
        match self.run_block(body, executor, procedures, fuel - 1) {
            Ok(()) => {},
            Err(x) => {
                assert forall|ans: Seq<Snapshot>| extends(ans, self.answers()) implies ({
                    let (sr, sc) = #[trigger] call_effect(
                        name@,
                        crate::ast::arg_view(*arg),
                        pv,
                        ans,
                        c,
                        fuel as nat,
                    );
                    unit_view(Err::<(), LogoError>(x)) == sr && sc == self.cfg()
                }) by {
                    assert(extends(ans, a_snap));
                    assert(answer_at(ans, c.used) == snap);
                    assert(run_block(nodes_view(body@), pv, ans, c1, (fuel - 1) as nat) == (Err::<
                        (),
                        ErrorV,
                    >(x@), self.cfg()));
                }
                return Err(x);
            },
        }
        let ghost after = self.vars();
        let ghost c2 = self.cfg();
        let ghost a_body = self.answers();
        proof {
            lemma_restore_empty(after, before);
            assert(pnames.subrange(n as int, n as int) =~= Seq::<Seq<char>>::empty());
        }
        let mut k: usize = n;
        while k > 0
            invariant
                self.wf(),
                k <= n,
                n == params.len(),
                n == saved.len(),
                pnames == strings_view(params@),
                forall|m: int|
                    0 <= m < n ==> #[trigger] saved@[m] == (if before.contains_key(pnames[m]) {
                        Some(before[pnames[m]])
                    } else {
                        None::<i64>
                    }),
                self.vars() == restore(after, before, pnames.subrange(k as int, n as int)),
                self.trace() == c2.cmds,
                self.answers() == a_body,
                a_body.len() == c2.used,
                extends(a_body, a_snap),
                extends(a_snap, old(self).answers()),
            decreases k,
        {
            k = k - 1;
            assert(pnames[k as int] == params@[k as int]@);
            proof {
                lemma_restore_step(after, before, pnames, k as int + 1, n as int);
            }
            match saved[k] {
                Some(v) => {
                    self.variables.insert(params[k].clone(), v);
                },
                None => {
                    self.variables.remove(params[k].as_str());
                },
            }
        }
        assert(pnames.subrange(0, n as int) =~= pnames);
        assert forall|ans: Seq<Snapshot>| extends(ans, self.answers()) implies ({
            let (sr, sc) = #[trigger] call_effect(
                name@,
                crate::ast::arg_view(*arg),
                pv,
                ans,
                c,
                fuel as nat,
            );
            sr == Ok::<(), ErrorV>(()) && sc == self.cfg()
        }) by {
            assert(extends(ans, a_body));
            assert(extends(ans, a_snap));
            assert(answer_at(ans, c.used) == snap);
            assert(run_block(nodes_view(body@), pv, ans, c1, (fuel - 1) as nat) == (
            Ok::<(), ErrorV>(()), c2));
        }
        Ok(())
    }
}

proof fn lemma_restore_empty(after: Map<Seq<char>, i64>, before: Map<Seq<char>, i64>)
    ensures
        restore(after, before, Seq::empty()) == after,
{
    assert(restore(after, before, Seq::empty()) =~= after);
}

proof fn lemma_restore_step(
    after: Map<Seq<char>, i64>,
    before: Map<Seq<char>, i64>,
    params: Seq<Seq<char>>,
    k: int,
    n: int,
)
    requires
        0 < k <= n <= params.len(),
    ensures
        restore(after, before, params.subrange(k - 1, n)) == if before.contains_key(params[k - 1]) {
            restore(after, before, params.subrange(k, n)).insert(params[k - 1], before[params[k - 1]])
        } else {
            restore(after, before, params.subrange(k, n)).remove(params[k - 1])
        },
{
    let p = params[k - 1];
    let s1 = params.subrange(k - 1, n);
    let s0 = params.subrange(k, n);
    assert forall|q: Seq<char>| s1.contains(q) <==> (q == p || s0.contains(q)) by {
        if s1.contains(q) {
            let w = choose|w: int| 0 <= w < s1.len() && s1[w] == q;
            if w > 0 {
                assert(s0[w - 1] == q);
            }
        }
        if q == p {
            assert(s1[0] == q);
        }
        if s0.contains(q) {
            let w = choose|w: int| 0 <= w < s0.len() && s0[w] == q;
            assert(s1[w + 1] == q);
        }
    }
    if before.contains_key(p) {
        assert(restore(after, before, s1) =~= restore(after, before, s0).insert(p, before[p]));
    } else {
        assert(restore(after, before, s1) =~= restore(after, before, s0).remove(p));
    }
}

impl Manager {
    /// Runs the statements in order, stopping at the first error.
    pub fn run_block<E: Executor>(
        &mut self,
        stmts: &Vec<ASTNode>,
        executor: &mut E,
        procedures: &Procedures,
        fuel: u64,
    ) -> (r: Result<(), LogoError>)
        requires
            old(self).wf(),
            procedures.wf(),
        ensures
            final(self).wf(),
            extends(final(self).answers(), old(self).answers()),
            forall|ans: Seq<Snapshot>|
                extends(ans, final(self).answers()) ==> {
                    let (sr, sc) = #[trigger] run_block(
                        nodes_view(stmts@),
                        procedures.view_procs(),
                        ans,
                        old(self).cfg(),
                        fuel as nat,
                    );
                    unit_view(r) == sr && sc == final(self).cfg()
                },
        decreases fuel, 2nat,
    {
        let ghost sv = nodes_view(stmts@);
        let ghost pv = procedures.view_procs();
        let ghost c_init = self.cfg();
        let ghost a_init = self.answers();
        let mut i: usize = 0;
        let mut f: u64 = fuel;
        assert(sv.skip(0) =~= sv);
        while i < stmts.len()
            invariant
                self.wf(),
                procedures.wf(),
                sv == nodes_view(stmts@),
                pv == procedures.view_procs(),
                c_init == old(self).cfg(),
                a_init == old(self).answers(),
                i <= stmts.len(),
                f <= fuel,
                extends(self.answers(), a_init),
                forall|ans: Seq<Snapshot>|
                    extends(ans, self.answers()) ==> #[trigger] run_block(
                        sv,
                        pv,
                        ans,
                        c_init,
                        fuel as nat,
                    ) == run_block(sv.skip(i as int), pv, ans, self.cfg(), f as nat),
            decreases stmts.len() - i,
        {
            let ghost a_old = self.answers();
            let ghost c_old = self.cfg();
            let ghost f_old = f;
            match self.run_stmt(stmts, i, executor, procedures, f) {
                Ok(f1) => {
                    f = f1;
                    assert forall|ans: Seq<Snapshot>| extends(ans, self.answers()) implies #[trigger] run_block(
                        sv,
                        pv,
                        ans,
                        c_init,
                        fuel as nat,
                    ) == run_block(sv.skip(i + 1), pv, ans, self.cfg(), f as nat) by {
                        assert(extends(ans, a_old));
                        assert(run_block(sv, pv, ans, c_init, fuel as nat) == run_block(
                            sv.skip(i as int),
                            pv,
                            ans,
                            c_old,
                            f_old as nat,
                        ));
                        assert(stmt_post(
                            sv.skip(i as int),
                            sv.skip(i + 1),
                            pv,
                            ans,
                            c_old,
                            f_old as nat,
                            Ok::<u64, LogoError>(f1),
                            self.cfg(),
                        ));
                    }
                },
                Err(e) => {
                    assert forall|ans: Seq<Snapshot>| extends(ans, self.answers()) implies ({
                        let (sr, sc) = #[trigger] run_block(sv, pv, ans, c_init, fuel as nat);
                        unit_view(Err::<(), LogoError>(e)) == sr && sc == self.cfg()
                    }) by {
                        assert(extends(ans, a_old));
                        assert(run_block(sv, pv, ans, c_init, fuel as nat) == run_block(
                            sv.skip(i as int),
                            pv,
                            ans,
                            c_old,
                            f_old as nat,
                        ));
                        assert(stmt_post(
                            sv.skip(i as int),
                            sv.skip(i + 1),
                            pv,
                            ans,
                            c_old,
                            f_old as nat,
                            Err::<u64, LogoError>(e),
                            self.cfg(),
                        ));
                    }
                    return Err(e);
                },
            }
            i = i + 1;
        }
        assert(sv.skip(i as int) =~= Seq::<NodeV>::empty());
        Ok(())
    }

    /// The statement `stmts[i]`, with `fuel` left; returns the fuel left for
    /// the statements after it.
    fn run_stmt<E: Executor>(
        &mut self,
        stmts: &Vec<ASTNode>,
        i: usize,
        executor: &mut E,
        procedures: &Procedures,
        fuel: u64,
    ) -> (r: Result<u64, LogoError>)
        requires
            old(self).wf(),
            procedures.wf(),
            i < stmts.len(),
        ensures
            final(self).wf(),
            extends(final(self).answers(), old(self).answers()),
            r is Ok ==> r->Ok_0 <= fuel,
            forall|ans: Seq<Snapshot>|
                extends(ans, final(self).answers()) ==> #[trigger] stmt_post(
                    nodes_view(stmts@).skip(i as int),
                    nodes_view(stmts@).skip(i + 1),
                    procedures.view_procs(),
                    ans,
                    old(self).cfg(),
                    fuel as nat,
                    r,
                    final(self).cfg(),
                ),
        decreases fuel, 1nat,
    {
        let ghost sv = nodes_view(stmts@);
        let ghost pv = procedures.view_procs();
        let ghost c = self.cfg();
        let ghost a0 = self.answers();
        let ghost here = sv.skip(i as int);
        let ghost next = sv.skip(i + 1);
        assert(here[0] == crate::ast::node_view(stmts@[i as int]));
        assert(here.drop_first() =~= next);
        proof {
            crate::ast::lemma_node_view_blocks(stmts@[i as int]);
        }
        match &stmts[i] {
            ASTNode::Sequence(b) => {
                if fuel == 0 {
                    return Err(LogoError::OutOfFuel);
                }
                let r = match self.run_block(b, executor, procedures, fuel - 1) {
                    Ok(()) => Ok(fuel),
                    Err(e) => Err(e),
                };
                assert forall|ans: Seq<Snapshot>| extends(ans, self.answers()) implies #[trigger] stmt_post(
                    here,
                    next,
                    pv,
                    ans,
                    c,
                    fuel as nat,
                    r,
                    self.cfg(),
                ) by {
                    assert(run_block(nodes_view(b@), pv, ans, c, (fuel - 1) as nat).0 == unit_view(
                        match r {
                            Ok(_) => Ok::<(), LogoError>(()),
                            Err(e) => Err(e),
                        },
                    ));
                }
                r
            },
            ASTNode::FunctionCall(f, e) => {
                if *f == FunName::PenUp || *f == FunName::PenDown {
                    let cmd = if *f == FunName::PenUp {
                        Command::PenUp
                    } else {
                        Command::PenDown
                    };
                    self.record(executor, cmd);
                    Ok(fuel)
                } else {
                    let snap = self.read_snapshot(executor);
                    let r = match self.simple_step(&stmts[i], &snap, executor) {
                        Ok(()) => Ok(fuel),
                        Err(x) => Err(x),
                    };
                    assert forall|ans: Seq<Snapshot>| extends(ans, self.answers()) implies #[trigger] stmt_post(
                        here,
                        next,
                        pv,
                        ans,
                        c,
                        fuel as nat,
                        r,
                        self.cfg(),
                    ) by {
                        assert(answer_at(ans, c.used) == snap);
                    }
                    r
                }
            },
            ASTNode::Define(_, _) | ASTNode::IncrementAssign(_, _) => {
                let snap = self.read_snapshot(executor);
                let r = match self.simple_step(&stmts[i], &snap, executor) {
                    Ok(()) => Ok(fuel),
                    Err(x) => Err(x),
                };
                assert forall|ans: Seq<Snapshot>| extends(ans, self.answers()) implies #[trigger] stmt_post(
                    here,
                    next,
                    pv,
                    ans,
                    c,
                    fuel as nat,
                    r,
                    self.cfg(),
                ) by {
                    assert(answer_at(ans, c.used) == snap);
                }
                r
            },
            ASTNode::If(cond, b) => {
                let snap = self.read_snapshot(executor);
                let ghost a_snap = self.answers();
                let ghost c_snap = self.cfg();
                let r = match self.value_of(cond, &snap) {
                    Err(x) => Err(x),
                    Ok(v) => {
                        if v == 0 {
                            Ok(fuel)
                        } else if fuel == 0 {
                            Err(LogoError::OutOfFuel)
                        } else {
                            match self.run_block(b, executor, procedures, fuel - 1) {
                                Ok(()) => Ok(fuel),
                                Err(e) => Err(e),
                            }
                        }
                    },
                };
                assert forall|ans: Seq<Snapshot>| extends(ans, self.answers()) implies #[trigger] stmt_post(
                    here,
                    next,
                    pv,
                    ans,
                    c,
                    fuel as nat,
                    r,
                    self.cfg(),
                ) by {
                    assert(extends(ans, a_snap));
                    assert(answer_at(ans, c.used) == snap);
                    if fuel > 0 {
                        assert(run_block(nodes_view(b@), pv, ans, c_snap, (fuel - 1) as nat)
                            == run_block(nodes_view(b@), pv, ans, c_snap, (fuel - 1) as nat));
                    }
                }
                r
            },
            ASTNode::While(cond, b) => {
                let mut f: u64 = fuel;
                loop
                    invariant
                        self.wf(),
                        procedures.wf(),
                        sv == nodes_view(stmts@),
                        pv == procedures.view_procs(),
                        here == sv.skip(i as int),
                        next == sv.skip(i + 1),
                        i < stmts.len(),
                        here[0] == NodeV::While(crate::ast::atoms_view(cond@), nodes_view(b@)),
                        here.drop_first() == next,
                        c == old(self).cfg(),
                        f <= fuel,
                        extends(self.answers(), old(self).answers()),
                        forall|ans: Seq<Snapshot>|
                            extends(ans, self.answers()) ==> #[trigger] run_block(
                                here,
                                pv,
                                ans,
                                c,
                                fuel as nat,
                            ) == run_block(here, pv, ans, self.cfg(), f as nat),
                    decreases f,
                {
                    let ghost a_old = self.answers();
                    let ghost c_old = self.cfg();
                    let snap = self.read_snapshot(executor);
                    let ghost a_snap = self.answers();
                    let ghost c_snap = self.cfg();
                    let v = match self.value_of(cond, &snap) {
                        Ok(v) => v,
                        Err(x) => {
                            let r: Result<u64, LogoError> = Err(x);
                            assert forall|ans: Seq<Snapshot>| extends(ans, self.answers()) implies #[trigger] stmt_post(
                                here,
                                next,
                                pv,
                                ans,
                                c,
                                fuel as nat,
                                r,
                                self.cfg(),
                            ) by {
                                assert(extends(ans, a_old));
                                assert(answer_at(ans, c_old.used) == snap);
                                assert(run_block(here, pv, ans, c, fuel as nat) == run_block(
                                    here,
                                    pv,
                                    ans,
                                    c_old,
                                    f as nat,
                                ));
                            }
                            return r;
                        },
                    };
                    if v == 0 {
                        let r: Result<u64, LogoError> = Ok(f);
                        assert forall|ans: Seq<Snapshot>| extends(ans, self.answers()) implies #[trigger] stmt_post(
                            here,
                            next,
                            pv,
                            ans,
                            c,
                            fuel as nat,
                            r,
                            self.cfg(),
                        ) by {
                            assert(extends(ans, a_old));
                            assert(answer_at(ans, c_old.used) == snap);
                            assert(run_block(here, pv, ans, c, fuel as nat) == run_block(
                                here,
                                pv,
                                ans,
                                c_old,
                                f as nat,
                            ));
                        }
                        return r;
                    }
                    if f == 0 {
                        let r: Result<u64, LogoError> = Err(LogoError::OutOfFuel);
                        assert forall|ans: Seq<Snapshot>| extends(ans, self.answers()) implies #[trigger] stmt_post(
                            here,
                            next,
                            pv,
                            ans,
                            c,
                            fuel as nat,
                            r,
                            self.cfg(),
                        ) by {
                            assert(extends(ans, a_old));
                            assert(answer_at(ans, c_old.used) == snap);
                            assert(run_block(here, pv, ans, c, fuel as nat) == run_block(
                                here,
                                pv,
                                ans,
                                c_old,
                                f as nat,
                            ));
                        }
                        return r;
                    }
                    match self.run_block(b, executor, procedures, f - 1) {
                        Ok(()) => {},
                        Err(x) => {
                            let r: Result<u64, LogoError> = Err(x);
                            assert forall|ans: Seq<Snapshot>| extends(ans, self.answers()) implies #[trigger] stmt_post(
                                here,
                                next,
                                pv,
                                ans,
                                c,
                                fuel as nat,
                                r,
                                self.cfg(),
                            ) by {
                                assert(extends(ans, a_snap));
                                assert(extends(ans, a_old));
                                assert(answer_at(ans, c_old.used) == snap);
                                assert(run_block(here, pv, ans, c, fuel as nat) == run_block(
                                    here,
                                    pv,
                                    ans,
                                    c_old,
                                    f as nat,
                                ));
                                assert(run_block(nodes_view(b@), pv, ans, c_snap, (f - 1) as nat).0
                                    == Err::<(), ErrorV>(x@));
                            }
                            return r;
                        },
                    }
                    assert forall|ans: Seq<Snapshot>| extends(ans, self.answers()) implies #[trigger] run_block(
                        here,
                        pv,
                        ans,
                        c,
                        fuel as nat,
                    ) == run_block(here, pv, ans, self.cfg(), (f - 1) as nat) by {
                        assert(extends(ans, a_snap));
                        assert(extends(ans, a_old));
                        assert(answer_at(ans, c_old.used) == snap);
                        assert(run_block(here, pv, ans, c, fuel as nat) == run_block(
                            here,
                            pv,
                            ans,
                            c_old,
                            f as nat,
                        ));
                        assert(run_block(nodes_view(b@), pv, ans, c_snap, (f - 1) as nat) == (
                        Ok::<(), ErrorV>(()), self.cfg()));
                    }
                    f = f - 1;
                }
            },
            ASTNode::CustomCall(name, arg) => {
                let r = match self.call_procedure(name, arg, executor, procedures, fuel) {
                    Ok(()) => Ok(fuel),
                    Err(e) => Err(e),
                };
                assert forall|ans: Seq<Snapshot>| extends(ans, self.answers()) implies #[trigger] stmt_post(
                    here,
                    next,
                    pv,
                    ans,
                    c,
                    fuel as nat,
                    r,
                    self.cfg(),
                ) by {
                    assert(call_effect(name@, crate::ast::arg_view(*arg), pv, ans, c, fuel as nat)
                        == call_effect(name@, crate::ast::arg_view(*arg), pv, ans, c, fuel as nat));
                }
                r
            },
        }
    }

    /// Runs a program: the root sequence.
    pub fn dfs<E: Executor>(
        &mut self,
        root: &ASTNode,
        executor: &mut E,
        procedures: &Procedures,
        fuel: u64,
    ) -> (r: Result<(), LogoError>)
        requires
            old(self).wf(),
            procedures.wf(),
            root is Sequence,
        ensures
            final(self).wf(),
            extends(final(self).answers(), old(self).answers()),
            forall|ans: Seq<Snapshot>|
                extends(ans, final(self).answers()) ==> {
                    let (sr, sc) = #[trigger] run_block(
                        nodes_view(root->Sequence_0@),
                        procedures.view_procs(),
                        ans,
                        old(self).cfg(),
                        fuel as nat,
                    );
                    unit_view(r) == sr && sc == final(self).cfg()
                },
    {
        match root {
            ASTNode::Sequence(b) => self.run_block(b, executor, procedures, fuel),
            _ => Ok(()),
        }
    }
}

} // verus!
