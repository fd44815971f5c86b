//! Type inference: constraint generation over one procedure, and the pass
//! over the whole program.

use vstd::prelude::*;
use crate::constraints::{all_rules, lemma_normalize_gives_rules, with_constraint};
use crate::errors::{AnalysisError, ErrorKind, Span};
use crate::ir::{
    all_well_formed,
    spec_locate_proc,
    clone_body,
    clone_names,
    clone_types,
    IRBuilder,
    IRProc,
    Instruction,
    InstructionType,
    SpecInstruction,
    SpecInstructionType,
    SpecProc,
};
use crate::scope::{argument_bindings, Scope};
use crate::solver::{
    add_literal_constaints,
    literal_defaults,
    relax_body,
    spec_solve_constraints,
};
use crate::types::Type;

verus! {

/// The generator's state between two instructions.
pub struct GenState {
    /// The types of the values on the operand stack, bottom first.
    pub stack: Seq<Type>,
    /// The variables in scope.
    pub scope: Map<Seq<char>, Type>,
    /// The rules recorded so far.
    pub constraints: Seq<(Type, Type)>,
}

/// The constraints of a call: the `count` first actual arguments, which lie
/// on the stack from `base` upwards, each against its declared type.
pub open spec fn call_constraints(
    constraints: Seq<(Type, Type)>,
    stack: Seq<Type>,
    base: int,
    formals: Seq<Type>,
    count: nat,
) -> Seq<(Type, Type)>
    decreases count,
{
    if count == 0 {
        constraints
    } else {
        with_constraint(
            call_constraints(constraints, stack, base, formals, (count - 1) as nat),
            stack[base + count - 1],
            formals[count - 1],
        )
    }
}

/// The effect of one instruction on the generator's state, or the error
/// that it raises.
///
/// `ret_type` is the declared return type of the procedure under analysis,
/// `procs` the program's procedure table.
pub open spec fn gen_step(
    procs: Seq<SpecProc>,
    ret_type: Type,
    st: GenState,
    ins: Span<SpecInstruction>,
) -> Result<GenState, AnalysisError> {
    let slot = ins.contents.typ;
    let depth = st.stack.len() as int;
    let malformed = Err::<GenState, AnalysisError>(ErrorKind::MalformedIR.at_spec(ins.pos, ins.len));
    let unresolved = Err::<GenState, AnalysisError>(
        ErrorKind::UnresolvedSymbol.at_spec(ins.pos, ins.len),
    );
    match ins.contents.ins {
        SpecInstructionType::Push(_) => Ok(
            GenState { stack: st.stack.push(slot), scope: st.scope, constraints: st.constraints },
        ),
        SpecInstructionType::Load(var) => if st.scope.contains_key(var) {
            Ok(
                GenState {
                    stack: st.stack.push(st.scope[var]),
                    scope: st.scope,
                    constraints: st.constraints,
                },
            )
        } else {
            unresolved
        },
        SpecInstructionType::Store(var) => if depth < 1 {
            malformed
        } else if !st.scope.contains_key(var) {
            unresolved
        } else {
            Ok(
                GenState {
                    stack: st.stack.take(depth - 1),
                    scope: st.scope,
                    constraints: with_constraint(
                        with_constraint(st.constraints, slot, st.stack[depth - 1]),
                        slot,
                        st.scope[var],
                    ),
                },
            )
        },
        SpecInstructionType::StoreIndexed(var) => if depth < 2 {
            malformed
        } else if !st.scope.contains_key(var) {
            unresolved
        } else {
            Ok(
                GenState {
                    stack: st.stack.take(depth - 2),
                    scope: st.scope,
                    constraints: match st.scope[var] {
                        Type::Array(_, element) => with_constraint(
                            st.constraints,
                            *element,
                            st.stack[depth - 2],
                        ),
                        _ => st.constraints,
                    },
                },
            )
        },
        SpecInstructionType::Allocate(var) => if depth < 1 {
            malformed
        } else {
            Ok(
                GenState {
                    stack: st.stack.take(depth - 1),
                    scope: st.scope.insert(var, slot),
                    constraints: with_constraint(st.constraints, slot, st.stack[depth - 1]),
                },
            )
        },
        SpecInstructionType::Index => if depth < 2 {
            malformed
        } else {
            match st.stack[depth - 2] {
                Type::Array(_, element) => Ok(
                    GenState {
                        stack: st.stack.take(depth - 2).push(*element),
                        scope: st.scope,
                        constraints: st.constraints,
                    },
                ),
                _ => malformed,
            }
        },
        SpecInstructionType::Branch(_, _) => if depth < 1 {
            malformed
        } else {
            Ok(
                GenState {
                    stack: st.stack.take(depth - 1),
                    scope: st.scope,
                    constraints: with_constraint(st.constraints, st.stack[depth - 1], Type::Bool),
                },
            )
        },
        SpecInstructionType::Jump(_) => Ok(st),
        SpecInstructionType::Label(_) => Ok(st),
        SpecInstructionType::Call(name) => match spec_locate_proc(procs, name) {
            None => Err(ErrorKind::UnknownProcedure.at_spec(ins.pos, ins.len)),
            Some(callee) => {
                let arity = callee.args.len() as int;
                if depth < arity {
                    malformed
                } else {
                    Ok(
                        GenState {
                            stack: st.stack.take(depth - arity).push(callee.ret_type),
                            scope: st.scope,
                            constraints: call_constraints(
                                st.constraints,
                                st.stack,
                                depth - arity,
                                callee.arg_types,
                                arity as nat,
                            ),
                        },
                    )
                }
            },
        },
        SpecInstructionType::Return => if depth < 1 {
            malformed
        } else {
            Ok(
                GenState {
                    stack: st.stack.take(depth - 1),
                    scope: st.scope,
                    constraints: with_constraint(st.constraints, st.stack[depth - 1], ret_type),
                },
            )
        },
        SpecInstructionType::Negate(_) => if depth < 1 {
            malformed
        } else {
            Ok(
                GenState {
                    stack: st.stack.take(depth - 1),
                    scope: st.scope,
                    constraints: with_constraint(st.constraints, st.stack[depth - 1], slot),
                },
            )
        },
        SpecInstructionType::Add(_)
        | SpecInstructionType::Subtract(_)
        | SpecInstructionType::Multiply(_)
        | SpecInstructionType::IntDivide
        | SpecInstructionType::Divide => if depth < 2 {
            malformed
        } else {
            let t1 = st.stack[depth - 1];
            let t2 = st.stack[depth - 2];
            Ok(
                GenState {
                    stack: st.stack.take(depth - 2).push(slot),
                    scope: st.scope,
                    constraints: with_constraint(
                        with_constraint(with_constraint(st.constraints, t1, t2), t1, slot),
                        t2,
                        slot,
                    ),
                },
            )
        },
        SpecInstructionType::Compare(_) => if depth < 2 {
            malformed
        } else {
            let t1 = st.stack[depth - 1];
            let t2 = st.stack[depth - 2];
            Ok(
                GenState {
                    stack: st.stack.take(depth - 2).push(Type::Bool),
                    scope: st.scope,
                    constraints: with_constraint(
                        with_constraint(st.constraints, t1, t2),
                        slot,
                        Type::Bool,
                    ),
                },
            )
        },
    }
}

/// The state after the instructions from `from` on, visited once each, left
/// to right; or the first error.
pub open spec fn gen_from(
    procs: Seq<SpecProc>,
    ret_type: Type,
    st: GenState,
    body: Seq<Span<SpecInstruction>>,
    from: int,
) -> Result<GenState, AnalysisError>
    decreases body.len() - from,
{
    if from < 0 || from >= body.len() {
        Ok(st)
    } else {
        match gen_step(procs, ret_type, st, body[from]) {
            Ok(next) => gen_from(procs, ret_type, next, body, from + 1),
            Err(e) => Err(e),
        }
    }
}

/// The constraints that procedure `p` gives rise to: its body is walked with
/// an empty stack and a scope that binds its arguments.
pub open spec fn spec_gen_constraints(procs: Seq<SpecProc>, p: SpecProc) -> Result<
    Seq<(Type, Type)>,
    AnalysisError,
> {
    let start = GenState {
        stack: Seq::empty(),
        scope: argument_bindings(p.args, p.arg_types),
        constraints: Seq::empty(),
    };
    match gen_from(procs, p.ret_type, start, p.body, 0) {
        Ok(end) => Ok(end.constraints),
        Err(e) => Err(e),
    }
}

/// Procedure `p` after inference: its own constraints, then the program's
/// default rules, solved into its body.
pub open spec fn spec_infer_proc(procs: Seq<SpecProc>, p: SpecProc) -> Result<
    SpecProc,
    AnalysisError,
> {
    match spec_gen_constraints(procs, p) {
        Ok(constraints) => Ok(spec_solve_constraints(p, constraints + literal_defaults(procs))),
        Err(e) => Err(e),
    }
}

/// The pass from procedure `from` on, with `done` holding the procedures
/// rewritten so far: every procedure is inferred against the unchanged
/// table, in declaration order, and the first error ends the pass.
pub open spec fn analyze_from(procs: Seq<SpecProc>, from: int, done: Seq<SpecProc>) -> Result<
    Seq<SpecProc>,
    AnalysisError,
>
    decreases procs.len() - from,
{
    if from < 0 || from >= procs.len() {
        Ok(done)
    } else {
        match spec_infer_proc(procs, procs[from]) {
            Ok(rewritten) => analyze_from(procs, from + 1, done.push(rewritten)),
            Err(e) => Err(e),
        }
    }
}

/// The whole pass: the rewritten program, or the first error.
pub open spec fn spec_analyze(procs: Seq<SpecProc>) -> Result<Seq<SpecProc>, AnalysisError> {
    analyze_from(procs, 0, Seq::empty())
}

/// The scope that binds a procedure's arguments to their declared types.
pub fn argument_scope(proc: &IRProc) -> (scope: Scope)
    requires
        proc.deep_view().well_formed(),
    ensures
        scope@ == argument_bindings(proc.deep_view().args, proc.deep_view().arg_types),
{
    let ghost args = proc.deep_view().args;
    let ghost arg_types = proc.deep_view().arg_types;
    let ghost entry = |k: int| (args[k], arg_types[k]);
    let mut scope = Scope::new();
    let mut i: usize = 0;
    while i < proc.arg_types.len()
        invariant
            i <= proc.arg_types.len(),
            proc.args.len() == proc.arg_types.len(),
            args == proc.args.deep_view(),
            arg_types == proc.arg_types@,
            entry == |k: int| (args[k], arg_types[k]),
            scope@ == crate::scope::bindings(Seq::new(i as nat, entry)),
        decreases proc.arg_types.len() - i,
    {
        proof {
            let longer = Seq::new((i + 1) as nat, entry);
            assert(longer.drop_last() =~= Seq::new(i as nat, entry));
            assert(longer.last() == (args[i as int], arg_types[i as int]));
            assert(args[i as int] == proc.args[i as int]@);
        }
        scope.insert(proc.args[i].clone(), proc.arg_types[i].clone());
        i += 1;
    }
    scope
}

impl IRBuilder {
    /// Offers the raw pair `(t1, t2)` to the constraint list: it is dropped
    /// or appended as a rule, as `normalize` says.
    pub fn add_constraint(&self, constraints: &mut Vec<(Type, Type)>, t1: Type, t2: Type)
        ensures
            final(constraints)@ == with_constraint(old(constraints)@, t1, t2),
    {
        if t1.same(&t2) {
            return ;
        }
        if t1.wildcard() || t2.wildcard() {
            return ;
        }
        if t2.eliminable() {
            constraints.push((t2, t1));
        } else {
            constraints.push((t1, t2));
        }
    }

    /// Interprets one instruction on the abstract state: the operand stack
    /// of types, the scope, and the constraints recorded so far.
    fn gen_instruction(
        &self,
        ret_type: &Type,
        ins: &Span<Instruction>,
        stack: &mut Vec<Type>,
        scope: &mut Scope,
        constraints: &mut Vec<(Type, Type)>,
    ) -> (outcome: Result<(), AnalysisError>)
        requires
            all_well_formed(self.procs.deep_view()),
        ensures
            match gen_step(
                self.procs.deep_view(),
                *ret_type,
                GenState {
                    stack: old(stack)@,
                    scope: old(scope)@,
                    constraints: old(constraints)@,
                },
                ins.deep_view(),
            ) {
                Ok(next) => outcome is Ok && final(stack)@ == next.stack && final(scope)@
                    == next.scope && final(constraints)@ == next.constraints,
                Err(e) => outcome == Err::<(), AnalysisError>(e),
            },
    {
        let ghost depth = stack@.len() as int;
        let ghost before = stack@;
        let slot = &ins.contents.typ;
        match &ins.contents.ins {
            InstructionType::Push(_) => {
                stack.push(slot.clone());
            },
            InstructionType::Load(var) => {
                match scope.locate_var(var) {
                    Ok(typ) => stack.push(typ),
                    Err(kind) => return Err(kind.at(ins.pos, ins.len)),
                }
            },
            InstructionType::Store(var) => {
                let typ = match stack.pop() {
                    Some(typ) => typ,
                    None => return Err(ErrorKind::MalformedIR.at(ins.pos, ins.len)),
                };
                let declared = match scope.locate_var(var) {
                    Ok(declared) => declared,
                    Err(kind) => return Err(kind.at(ins.pos, ins.len)),
                };
                self.add_constraint(constraints, slot.clone(), typ);
                self.add_constraint(constraints, slot.clone(), declared);
            },
            InstructionType::StoreIndexed(var) => {
                if stack.len() < 2 {
                    return Err(ErrorKind::MalformedIR.at(ins.pos, ins.len));
                }
                let _index_type = stack.pop();
                let value_type = stack.pop().unwrap();
                assert(stack@ =~= before.take(depth - 2));
                let declared = match scope.locate_var(var) {
                    Ok(declared) => declared,
                    Err(kind) => return Err(kind.at(ins.pos, ins.len)),
                };
                if let Type::Array(_, element) = declared {
                    self.add_constraint(constraints, *element, value_type);
                }
            },
            InstructionType::Allocate(var) => {
                let content_type = match stack.pop() {
                    Some(typ) => typ,
                    None => return Err(ErrorKind::MalformedIR.at(ins.pos, ins.len)),
                };
                scope.insert(var.clone(), slot.clone());
                self.add_constraint(constraints, slot.clone(), content_type);
            },
            InstructionType::Index => {
                if stack.len() < 2 {
                    return Err(ErrorKind::MalformedIR.at(ins.pos, ins.len));
                }
                let _index_type = stack.pop();
                let object_type = stack.pop().unwrap();
                assert(stack@ =~= before.take(depth - 2));
                if let Type::Array(_, element) = object_type {
                    stack.push(*element);
                } else {
                    return Err(ErrorKind::MalformedIR.at(ins.pos, ins.len));
                }
            },
            InstructionType::Branch(_, _) => {
                let condition = match stack.pop() {
                    Some(typ) => typ,
                    None => return Err(ErrorKind::MalformedIR.at(ins.pos, ins.len)),
                };
                self.add_constraint(constraints, condition, Type::Bool);
            },
            InstructionType::Jump(_) => {},
            InstructionType::Label(_) => {},
            InstructionType::Call(name) => {
                let index = match self.proc_index(name) {
                    Some(index) => index,
                    None => return Err(ErrorKind::UnknownProcedure.at(ins.pos, ins.len)),
                };
                let callee = &self.procs[index];
                let ghost model = self.procs.deep_view()[index as int];
                assert(model == callee.deep_view());
                assert(model.well_formed());
                let arity = callee.args.len();
                if stack.len() < arity {
                    return Err(ErrorKind::MalformedIR.at(ins.pos, ins.len));
                }
                let base = stack.len() - arity;
                let ghost recorded = constraints@;
                let mut i: usize = 0;
                while i < arity
                    invariant
                        i <= arity,
                        arity == callee.arg_types.len(),
                        base + arity == stack.len(),
                        constraints@ == call_constraints(
                            recorded,
                            stack@,
                            base as int,
                            callee.arg_types@,
                            i as nat,
                        ),
                    decreases arity - i,
                {
                    self.add_constraint(constraints, stack[base + i].clone(), callee.arg_types[i].clone());
                    i += 1;
                }
                stack.truncate(base);
                stack.push(callee.ret_type.clone());
            },
            InstructionType::Return => {
                let type_to_return = match stack.pop() {
                    Some(typ) => typ,
                    None => return Err(ErrorKind::MalformedIR.at(ins.pos, ins.len)),
                };
                self.add_constraint(constraints, type_to_return, ret_type.clone());
            },
            InstructionType::Negate(_) => {
                let t1 = match stack.pop() {
                    Some(typ) => typ,
                    None => return Err(ErrorKind::MalformedIR.at(ins.pos, ins.len)),
                };
                self.add_constraint(constraints, t1, slot.clone());
            },
            InstructionType::Add(_)
            | InstructionType::Subtract(_)
            | InstructionType::Multiply(_)
            | InstructionType::IntDivide
            | InstructionType::Divide => {
                if stack.len() < 2 {
                    return Err(ErrorKind::MalformedIR.at(ins.pos, ins.len));
                }
                let t1 = stack.pop().unwrap();
                let t2 = stack.pop().unwrap();
                assert(stack@ =~= before.take(depth - 2));
                self.add_constraint(constraints, t1.clone(), t2.clone());
                self.add_constraint(constraints, t1, slot.clone());
                self.add_constraint(constraints, t2, slot.clone());
                stack.push(slot.clone());
            },
            InstructionType::Compare(_) => {
                if stack.len() < 2 {
                    return Err(ErrorKind::MalformedIR.at(ins.pos, ins.len));
                }
                let t1 = stack.pop().unwrap();
                let t2 = stack.pop().unwrap();
                assert(stack@ =~= before.take(depth - 2));
                self.add_constraint(constraints, t1, t2);
                self.add_constraint(constraints, slot.clone(), Type::Bool);
                stack.push(Type::Bool);
            },
        }
        Ok(())
    }

    /// Walks the body of `proc` once and returns the constraints it gives
    /// rise to, in the order in which they were recorded.
    pub fn gen_constraints(&self, proc: &IRProc) -> (generated: Result<
        Vec<(Type, Type)>,
        AnalysisError,
    >)
        requires
            all_well_formed(self.procs.deep_view()),
            proc.deep_view().well_formed(),
        ensures
            match spec_gen_constraints(self.procs.deep_view(), proc.deep_view()) {
                Ok(constraints) => generated is Ok && generated->Ok_0@ == constraints,
                Err(e) => generated == Err::<Vec<(Type, Type)>, AnalysisError>(e),
            },
    {
        let ghost procs = self.procs.deep_view();
        let ghost body = proc.body.deep_view();
        let mut constraints: Vec<(Type, Type)> = Vec::new();
        let mut stack: Vec<Type> = Vec::new();
        let mut scope = argument_scope(proc);
        let ghost start = GenState { stack: stack@, scope: scope@, constraints: constraints@ };
        let mut i: usize = 0;
        while i < proc.body.len()
            invariant
                i <= proc.body.len(),
                procs == self.procs.deep_view(),
                all_well_formed(procs),
                body == proc.body.deep_view(),
                start == (GenState {
                    stack: Seq::empty(),
                    scope: argument_bindings(proc.deep_view().args, proc.deep_view().arg_types),
                    constraints: Seq::empty(),
                }),
                gen_from(procs, proc.ret_type, start, body, 0) == gen_from(
                    procs,
                    proc.ret_type,
                    GenState { stack: stack@, scope: scope@, constraints: constraints@ },
                    body,
                    i as int,
                ),
            decreases proc.body.len() - i,
        {
            assert(body[i as int] == proc.body[i as int].deep_view());
            match self.gen_instruction(
                &proc.ret_type,
                &proc.body[i],
                &mut stack,
                &mut scope,
                &mut constraints,
            ) {
                Ok(()) => {},
                Err(e) => return Err(e),
            }
            i += 1;
        }
        Ok(constraints)
    }
}

impl IRBuilder {
    /// Resolves `constraints` into the body of `proc` and assembles the
    /// rewritten procedure. Name, arguments and return type are taken over
    /// as they are.
    pub fn solve_constraints(&self, proc: &IRProc, constraints: &Vec<(Type, Type)>) -> (solved: IRProc)
        ensures
            solved.deep_view() == spec_solve_constraints(proc.deep_view(), constraints@),
    {
        let (new_body, _) = relax_body(clone_body(&proc.body), constraints);
        IRProc {
            name: proc.name.clone(),
            args: clone_names(&proc.args),
            arg_types: clone_types(&proc.arg_types),
            ret_type: proc.ret_type.clone(),
            body: new_body,
        }
    }

    /// Infers the types of the whole program.
    ///
    /// Every procedure, in declaration order, has its constraints generated,
    /// the program's default rules appended and the result solved into its
    /// body. On success the rewritten procedures replace the table. The
    /// first error ends the pass and leaves the table as it was.
    pub fn analyze(&mut self) -> (outcome: Result<(), AnalysisError>)
        requires
            all_well_formed(old(self).procs.deep_view()),
        ensures
            match spec_analyze(old(self).procs.deep_view()) {
                Ok(rewritten) => outcome is Ok && final(self).procs.deep_view() == rewritten,
                Err(e) => outcome == Err::<(), AnalysisError>(e)
                    && final(self).procs == old(self).procs,
            },
    {
        let ghost procs = self.procs.deep_view();
        let mut new_procs: Vec<IRProc> = Vec::new();
        assert(new_procs.deep_view() =~= Seq::empty());
        let mut index: usize = 0;
        while index < self.procs.len()
            invariant
                index <= self.procs.len(),
                *self == *old(self),
                procs == self.procs.deep_view(),
                all_well_formed(procs),
                spec_analyze(procs) == analyze_from(procs, index as int, new_procs.deep_view()),
            decreases self.procs.len() - index,
        {
            let ghost done = new_procs.deep_view();
            assert(procs[index as int] == self.procs[index as int].deep_view());
            let mut constraints = match self.gen_constraints(&self.procs[index]) {
                Ok(constraints) => constraints,
                Err(e) => return Err(e),
            };
            add_literal_constaints(&mut constraints, &self.procs);
            let solved = self.solve_constraints(&self.procs[index], &constraints);
            new_procs.push(solved);
            assert(new_procs.deep_view() =~= done.push(solved.deep_view()));
            index += 1;
        }
        self.procs = new_procs;
        Ok(())
    }
}

/// A successful pass rewrites every procedure by itself, against the
/// table as it was: the output is as long as the input, and procedure `i` of
/// it is what inference makes of procedure `i`.
pub proof fn lemma_analyze_pointwise(procs: Seq<SpecProc>)
    requires
        spec_analyze(procs) is Ok,
    ensures
        spec_analyze(procs)->Ok_0.len() == procs.len(),
        forall|i: int|
            0 <= i < procs.len() ==> spec_infer_proc(procs, #[trigger] procs[i]) == Ok::<
                SpecProc,
                AnalysisError,
            >(spec_analyze(procs)->Ok_0[i]),
{
    lemma_analyze_from_pointwise(procs, 0, Seq::empty());
}

proof fn lemma_analyze_from_pointwise(procs: Seq<SpecProc>, from: int, done: Seq<SpecProc>)
    requires
        0 <= from <= procs.len(),
        done.len() == from,
        analyze_from(procs, from, done) is Ok,
    ensures
        analyze_from(procs, from, done)->Ok_0.len() == procs.len(),
        forall|i: int|
            0 <= i < from ==> analyze_from(procs, from, done)->Ok_0[i] == #[trigger] done[i],
        forall|i: int|
            from <= i < procs.len() ==> spec_infer_proc(procs, #[trigger] procs[i]) == Ok::<
                SpecProc,
                AnalysisError,
            >(analyze_from(procs, from, done)->Ok_0[i]),
    decreases procs.len() - from,
{
    if from < procs.len() {
        let rewritten = spec_infer_proc(procs, procs[from])->Ok_0;
        lemma_analyze_from_pointwise(procs, from + 1, done.push(rewritten));
        let out = analyze_from(procs, from, done)->Ok_0;
        assert(out[from] == done.push(rewritten)[from]);
        assert forall|i: int| 0 <= i < from implies out[i] == #[trigger] done[i] by {
            assert(out[i] == done.push(rewritten)[i]);
        }
    }
}

/// A failed pass reports the error of the first procedure, in declaration
/// order, whose inference fails.
pub proof fn lemma_analyze_first_error(procs: Seq<SpecProc>)
    requires
        spec_analyze(procs) is Err,
    ensures
        exists|i: int|
            0 <= i < procs.len() && spec_infer_proc(procs, #[trigger] procs[i]) == Err::<
                SpecProc,
                AnalysisError,
            >(spec_analyze(procs)->Err_0) && forall|k: int|
                0 <= k < i ==> spec_infer_proc(procs, #[trigger] procs[k]) is Ok,
{
    lemma_analyze_from_first_error(procs, 0, Seq::empty());
}

proof fn lemma_analyze_from_first_error(procs: Seq<SpecProc>, from: int, done: Seq<SpecProc>)
    requires
        0 <= from <= procs.len(),
        analyze_from(procs, from, done) is Err,
        forall|k: int| 0 <= k < from ==> spec_infer_proc(procs, #[trigger] procs[k]) is Ok,
    ensures
        exists|i: int|
            0 <= i < procs.len() && spec_infer_proc(procs, #[trigger] procs[i]) == Err::<
                SpecProc,
                AnalysisError,
            >(analyze_from(procs, from, done)->Err_0) && forall|k: int|
                0 <= k < i ==> spec_infer_proc(procs, #[trigger] procs[k]) is Ok,
    decreases procs.len() - from,
{
    if spec_infer_proc(procs, procs[from]) is Ok {
        let rewritten = spec_infer_proc(procs, procs[from])->Ok_0;
        lemma_analyze_from_first_error(procs, from + 1, done.push(rewritten));
    }
}

/// The constraints of a call are rules where those recorded before are.
proof fn lemma_call_constraints_are_rules(
    constraints: Seq<(Type, Type)>,
    stack: Seq<Type>,
    base: int,
    formals: Seq<Type>,
    count: nat,
)
    requires
        all_rules(constraints),
    ensures
        all_rules(call_constraints(constraints, stack, base, formals, count)),
    decreases count,
{
    if count > 0 {
        lemma_call_constraints_are_rules(constraints, stack, base, formals, (count - 1) as nat);
        lemma_normalize_gives_rules(
            call_constraints(constraints, stack, base, formals, (count - 1) as nat),
            stack[base + count - 1],
            formals[count - 1],
        );
    }
}

/// One instruction leaves the recorded constraints a list of rules.
proof fn lemma_step_keeps_rules(
    procs: Seq<SpecProc>,
    ret_type: Type,
    st: GenState,
    ins: Span<SpecInstruction>,
)
    requires
        all_rules(st.constraints),
    ensures
        gen_step(procs, ret_type, st, ins) matches Ok(next) ==> all_rules(next.constraints),
{
    let slot = ins.contents.typ;
    let depth = st.stack.len() as int;
    match ins.contents.ins {
        SpecInstructionType::Call(name) => {
            if let Some(callee) = spec_locate_proc(procs, name) {
                lemma_call_constraints_are_rules(
                    st.constraints,
                    st.stack,
                    depth - callee.args.len(),
                    callee.arg_types,
                    callee.args.len(),
                );
            }
        },
        SpecInstructionType::Add(_)
        | SpecInstructionType::Subtract(_)
        | SpecInstructionType::Multiply(_)
        | SpecInstructionType::IntDivide
        | SpecInstructionType::Divide => {
            let t1 = st.stack[depth - 1];
            let t2 = st.stack[depth - 2];
            lemma_normalize_gives_rules(st.constraints, t1, t2);
            lemma_normalize_gives_rules(with_constraint(st.constraints, t1, t2), t1, slot);
            lemma_normalize_gives_rules(
                with_constraint(with_constraint(st.constraints, t1, t2), t1, slot),
                t2,
                slot,
            );
        },
        _ => {},
    }
}

proof fn lemma_gen_from_keeps_rules(
    procs: Seq<SpecProc>,
    ret_type: Type,
    st: GenState,
    body: Seq<Span<SpecInstruction>>,
    from: int,
)
    requires
        all_rules(st.constraints),
    ensures
        gen_from(procs, ret_type, st, body, from) matches Ok(end) ==> all_rules(end.constraints),
    decreases body.len() - from,
{
    if 0 <= from < body.len() {
        lemma_step_keeps_rules(procs, ret_type, st, body[from]);
        if let Ok(next) = gen_step(procs, ret_type, st, body[from]) {
            lemma_gen_from_keeps_rules(procs, ret_type, next, body, from + 1);
        }
    }
}

/// Whatever the solver is given is a list of rules: the generator records
/// nothing else, and the defaults for literals are rules too. In
/// particular no rule rewrites a term into itself.
pub proof fn lemma_inference_solves_rules(procs: Seq<SpecProc>, p: SpecProc)
    requires
        spec_gen_constraints(procs, p) is Ok,
    ensures
        all_rules(spec_gen_constraints(procs, p)->Ok_0),
        all_rules(literal_defaults(procs)),
        all_rules(spec_gen_constraints(procs, p)->Ok_0 + literal_defaults(procs)),
{
    let start = GenState {
        stack: Seq::empty(),
        scope: argument_bindings(p.args, p.arg_types),
        constraints: Seq::empty(),
    };
    lemma_gen_from_keeps_rules(procs, p.ret_type, start, p.body, 0);
}

/// Inference rewrites type slots of the body and nothing else: the name,
/// the arguments with their types and the return type stay, and so do the
/// opcode, the position and the length of every instruction.
pub proof fn lemma_infer_keeps_shape(procs: Seq<SpecProc>, p: SpecProc)
    requires
        spec_infer_proc(procs, p) is Ok,
    ensures
        ({
            let q = spec_infer_proc(procs, p)->Ok_0;
            &&& q.name == p.name
            &&& q.args == p.args
            &&& q.arg_types == p.arg_types
            &&& q.ret_type == p.ret_type
            &&& q.body.len() == p.body.len()
            &&& forall|i: int|
                #![trigger q.body[i]]
                0 <= i < p.body.len() ==> q.body[i].contents.ins == p.body[i].contents.ins
                    && q.body[i].pos == p.body[i].pos && q.body[i].len == p.body[i].len
        }),
{
    let rules = spec_gen_constraints(procs, p)->Ok_0 + literal_defaults(procs);
    crate::solver::lemma_solve_keeps_shape(p.body, rules);
}

/// Inference leaves a procedure as it is when none of its type slots is the
/// source of a rule: neither of a constraint that its body gives rise to,
/// nor of a default rule of the program.
pub proof fn lemma_infer_settled_proc(procs: Seq<SpecProc>, p: SpecProc)
    requires
        spec_gen_constraints(procs, p) is Ok,
        ({
            let rules = spec_gen_constraints(procs, p)->Ok_0 + literal_defaults(procs);
            forall|i: int, k: int|
                0 <= i < p.body.len()
                    && 0 <= k < rules.len() ==> (#[trigger] p.body[i]).contents.typ
                    != (#[trigger] rules[k]).0
        }),
    ensures
        spec_infer_proc(procs, p) == Ok::<SpecProc, AnalysisError>(p),
{
    let rules = spec_gen_constraints(procs, p)->Ok_0 + literal_defaults(procs);
    crate::solver::lemma_solve_settled_body(p.body, rules);
}

/// Inference is a no-op on a procedure whose body raises no constraint that
/// is not already satisfied, and holds no literal placeholder.
pub proof fn lemma_infer_resolved_proc(procs: Seq<SpecProc>, p: SpecProc)
    requires
        spec_gen_constraints(procs, p) == Ok::<Seq<(Type, Type)>, AnalysisError>(Seq::empty()),
        forall|i: int|
            0 <= i < p.body.len() ==> (#[trigger] p.body[i]).contents.typ != Type::IntLiteral
                && p.body[i].contents.typ != Type::FloatLiteral,
    ensures
        spec_infer_proc(procs, p) == Ok::<SpecProc, AnalysisError>(p),
{
    lemma_infer_settled_proc(procs, p);
}

/// An integer literal that no constraint of its procedure touches comes out
/// as `I32`: the slot at `i` holds `IntLiteral`, and no generated constraint
/// rewrites `IntLiteral` or `I32`.
pub proof fn lemma_int_literal_defaults(procs: Seq<SpecProc>, which: int, i: int)
    requires
        0 <= which < procs.len(),
        0 <= i < procs[which].body.len(),
        procs[which].body[i].contents.typ == Type::IntLiteral,
        spec_gen_constraints(procs, procs[which]) is Ok,
        forall|k: int|
            0 <= k < spec_gen_constraints(procs, procs[which])->Ok_0.len() ==> {
                let source = (#[trigger] spec_gen_constraints(procs, procs[which])->Ok_0[k]).0;
                source != Type::IntLiteral && source != Type::I32
            },
    ensures
        spec_infer_proc(procs, procs[which]) is Ok,
        spec_infer_proc(procs, procs[which])->Ok_0.body.len() == procs[which].body.len(),
        spec_infer_proc(procs, procs[which])->Ok_0.body[i].contents.typ == Type::I32,
{
    let p = procs[which];
    let generated = spec_gen_constraints(procs, p)->Ok_0;
    let rules = generated + literal_defaults(procs);
    assert(crate::solver::has_slot(procs, Type::IntLiteral)) by {
        assert(procs[which].body[i].contents.typ == Type::IntLiteral);
    }
    let first = generated.len() as int;
    assert(rules[first] == (Type::IntLiteral, Type::I32));
    crate::solver::lemma_solve_resolves_slot(p.body, rules, i, first);
}

/// A float literal that no constraint of its procedure touches comes out as
/// `F64`: the slot at `i` holds `FloatLiteral`, and no generated constraint
/// rewrites `FloatLiteral` or `F64`.
pub proof fn lemma_float_literal_defaults(procs: Seq<SpecProc>, which: int, i: int)
    requires
        0 <= which < procs.len(),
        0 <= i < procs[which].body.len(),
        procs[which].body[i].contents.typ == Type::FloatLiteral,
        spec_gen_constraints(procs, procs[which]) is Ok,
        forall|k: int|
            0 <= k < spec_gen_constraints(procs, procs[which])->Ok_0.len() ==> {
                let source = (#[trigger] spec_gen_constraints(procs, procs[which])->Ok_0[k]).0;
                source != Type::FloatLiteral && source != Type::F64
            },
    ensures
        spec_infer_proc(procs, procs[which]) is Ok,
        spec_infer_proc(procs, procs[which])->Ok_0.body.len() == procs[which].body.len(),
        spec_infer_proc(procs, procs[which])->Ok_0.body[i].contents.typ == Type::F64,
{
    let p = procs[which];
    let generated = spec_gen_constraints(procs, p)->Ok_0;
    let rules = generated + literal_defaults(procs);
    assert(crate::solver::has_slot(procs, Type::FloatLiteral)) by {
        assert(procs[which].body[i].contents.typ == Type::FloatLiteral);
    }
    let first = rules.len() - 1;
    assert(rules[first] == (Type::FloatLiteral, Type::F64));
    crate::solver::lemma_solve_resolves_slot(p.body, rules, i, first);
}

} // verus!
