//! Literal defaulting and the bounded relaxation that resolves a constraint
//! list into a procedure body.

use vstd::prelude::*;
use crate::constraints::{
    spec_substitute_constraints,
    spec_substitute_proc_body,
    substitute_constraints,
    substitute_proc_body,
};
use crate::errors::Span;
use crate::ir::{IRProc, Instruction, SpecInstruction, SpecProc};
use crate::types::Type;

verus! {

/// How many times the whole rule set is applied.
pub const ROUNDS: usize = 3;

/// Some instruction of some procedure carries `t` in its type slot.
pub open spec fn has_slot(procs: Seq<SpecProc>, t: Type) -> bool {
    exists|i: int, j: int|
        0 <= i < procs.len() && 0 <= j < procs[i].body.len() && (
        #[trigger] procs[i].body[j]).contents.typ == t
}

/// The default rules that a program calls for: integer literals become
/// `I32` and float literals `F64`, each rule present where the program still
/// has such a slot.
pub open spec fn literal_defaults(procs: Seq<SpecProc>) -> Seq<(Type, Type)> {
    let ints = if has_slot(procs, Type::IntLiteral) {
        seq![(Type::IntLiteral, Type::I32)]
    } else {
        Seq::empty()
    };
    let floats = if has_slot(procs, Type::FloatLiteral) {
        seq![(Type::FloatLiteral, Type::F64)]
    } else {
        Seq::empty()
    };
    ints + floats
}

/// What the solver rewrites: the body, and its working copy of the rules.
pub struct Relaxation {
    pub body: Seq<Span<SpecInstruction>>,
    pub constraints: Seq<(Type, Type)>,
}

/// The state after the first `count` rules have been applied in order.
pub open spec fn apply_rules(state: Relaxation, rules: Seq<(Type, Type)>, count: nat) -> Relaxation
    decreases count,
{
    if count == 0 {
        state
    } else {
        let before = apply_rules(state, rules, (count - 1) as nat);
        let rule = rules[count - 1];
        Relaxation {
            body: spec_substitute_proc_body(before.body, rule.0, rule.1),
            constraints: spec_substitute_constraints(before.constraints, rule.0, rule.1),
        }
    }
}

/// The state after `rounds` passes, each applying every rule of `rules` in
/// order. The rules applied are never the working copy.
pub open spec fn relax(state: Relaxation, rules: Seq<(Type, Type)>, rounds: nat) -> Relaxation
    decreases rounds,
{
    if rounds == 0 {
        state
    } else {
        apply_rules(relax(state, rules, (rounds - 1) as nat), rules, rules.len())
    }
}

/// The solver's whole run on a body and a constraint list.
pub open spec fn spec_relaxation(body: Seq<Span<SpecInstruction>>, constraints: Seq<(Type, Type)>) -> Relaxation {
    relax(Relaxation { body, constraints }, constraints, ROUNDS as nat)
}

/// The body that the solver leaves.
pub open spec fn spec_solve(body: Seq<Span<SpecInstruction>>, constraints: Seq<(Type, Type)>) -> Seq<
    Span<SpecInstruction>,
> {
    spec_relaxation(body, constraints).body
}

/// The procedure with its body resolved; name, arguments and return type are
/// not touched.
pub open spec fn spec_solve_constraints(p: SpecProc, constraints: Seq<(Type, Type)>) -> SpecProc {
    SpecProc {
        name: p.name,
        args: p.args,
        arg_types: p.arg_types,
        ret_type: p.ret_type,
        body: spec_solve(p.body, constraints),
    }
}

/// Appends the default rules that the program calls for.
pub fn add_literal_constaints(constraints: &mut Vec<(Type, Type)>, procs: &Vec<IRProc>)
    ensures
        final(constraints)@ == old(constraints)@ + literal_defaults(procs.deep_view()),
{
    let ghost model = procs.deep_view();
    let mut has_int_literal = false;
    let mut has_float_literal = false;
    let mut i: usize = 0;
    while i < procs.len()
        invariant
            i <= procs.len(),
            model == procs.deep_view(),
            has_int_literal <==> exists|a: int, b: int|
                0 <= a < i && 0 <= b < model[a].body.len()
                    && (#[trigger] model[a].body[b]).contents.typ
                    == Type::IntLiteral,
            has_float_literal <==> exists|a: int, b: int|
                0 <= a < i && 0 <= b < model[a].body.len()
                    && (#[trigger] model[a].body[b]).contents.typ
                    == Type::FloatLiteral,
        decreases procs.len() - i,
    {
        let proc = &procs[i];
        let ghost body = proc.body.deep_view();
        assert(body == model[i as int].body);
        let ghost int_before = has_int_literal;
        let ghost float_before = has_float_literal;
        let mut j: usize = 0;
        while j < proc.body.len()
            invariant
                j <= proc.body.len(),
                body == proc.body.deep_view(),
                has_int_literal <==> int_before || exists|b: int|
                    0 <= b < j && (#[trigger] body[b]).contents.typ == Type::IntLiteral,
                has_float_literal <==> float_before || exists|b: int|
                    0 <= b < j && (#[trigger] body[b]).contents.typ == Type::FloatLiteral,
            decreases proc.body.len() - j,
        {
            assert(body[j as int].contents.typ == proc.body[j as int].contents.typ);
            if proc.body[j].contents.typ.same(&Type::IntLiteral) {
                has_int_literal = true;
            } else if proc.body[j].contents.typ.same(&Type::FloatLiteral) {
                has_float_literal = true;
            }
            j += 1;
        }
        i += 1;
    }
    let ghost before = constraints@;
    if has_int_literal {
        constraints.push((Type::IntLiteral, Type::I32));
    }
    if has_float_literal {
        constraints.push((Type::FloatLiteral, Type::F64));
    }
    assert(constraints@ =~= before + literal_defaults(model));
}

/// A copy of a constraint list.
pub fn clone_constraints(constraints: &Vec<(Type, Type)>) -> (copy: Vec<(Type, Type)>)
    ensures
        copy@ == constraints@,
{
    let mut copy: Vec<(Type, Type)> = Vec::new();
    let mut i: usize = 0;
    while i < constraints.len()
        invariant
            i <= constraints.len(),
            copy@ == constraints@.take(i as int),
        decreases constraints.len() - i,
    {
        copy.push((constraints[i].0.clone(), constraints[i].1.clone()));
        i += 1;
    }
    copy
}

/// Runs the bounded relaxation: `ROUNDS` passes over `constraints` as they
/// were given, each rule rewriting the body and the working copy of the
/// rules.
pub fn relax_body(body: Vec<Span<Instruction>>, constraints: &Vec<(Type, Type)>) -> (solved: (
    Vec<Span<Instruction>>,
    Vec<(Type, Type)>,
))
    ensures
        solved.0.deep_view() == spec_relaxation(body.deep_view(), constraints@).body,
        solved.1@ == spec_relaxation(body.deep_view(), constraints@).constraints,
{
    let ghost start = Relaxation { body: body.deep_view(), constraints: constraints@ };
    let mut new_body = body;
    let mut new_constraints = clone_constraints(constraints);
    let mut round: usize = 0;
    while round < ROUNDS
        invariant
            round <= ROUNDS,
            relax(start, constraints@, round as nat) == (Relaxation {
                body: new_body.deep_view(),
                constraints: new_constraints@,
            }),
        decreases ROUNDS - round,
    {
        let ghost entry = relax(start, constraints@, round as nat);
        let mut k: usize = 0;
        while k < constraints.len()
            invariant
                k <= constraints.len(),
                apply_rules(entry, constraints@, k as nat) == (Relaxation {
                    body: new_body.deep_view(),
                    constraints: new_constraints@,
                }),
            decreases constraints.len() - k,
        {
            new_body = substitute_proc_body(new_body, &constraints[k].0, &constraints[k].1);
            new_constraints = substitute_constraints(&new_constraints, &constraints[k].0, &constraints[k].1);
            k += 1;
        }
        round += 1;
    }
    (new_body, new_constraints)
}

/// A rule leaves alone a body in which no slot holds the rule's source.
proof fn lemma_rule_misses(body: Seq<Span<SpecInstruction>>, source: Type, target: Type)
    requires
        forall|i: int| 0 <= i < body.len() ==> (#[trigger] body[i]).contents.typ != source,
    ensures
        spec_substitute_proc_body(body, source, target) == body,
{
    assert(spec_substitute_proc_body(body, source, target) =~= body);
}

/// Rules whose sources occur in no slot leave the body alone, however many
/// of them are applied.
proof fn lemma_rules_miss(state: Relaxation, rules: Seq<(Type, Type)>, count: nat)
    requires
        count <= rules.len(),
        forall|i: int, k: int|
            0 <= i < state.body.len() && 0 <= k < rules.len() ==> (
            #[trigger] state.body[i]).contents.typ != (#[trigger] rules[k]).0,
    ensures
        apply_rules(state, rules, count).body == state.body,
    decreases count,
{
    if count > 0 {
        lemma_rules_miss(state, rules, (count - 1) as nat);
        let rule = rules[count - 1];
        lemma_rule_misses(state.body, rule.0, rule.1);
    }
}

/// The solver is the identity on a body none of whose type slots is the
/// source of a constraint.
pub proof fn lemma_solve_settled_body(
    body: Seq<Span<SpecInstruction>>,
    constraints: Seq<(Type, Type)>,
)
    requires
        forall|i: int, k: int|
            0 <= i < body.len() && 0 <= k < constraints.len() ==> (#[trigger] body[i]).contents.typ
                != (#[trigger] constraints[k]).0,
    ensures
        spec_solve(body, constraints) == body,
{
    let start = Relaxation { body, constraints };
    assert forall|rounds: nat| rounds <= ROUNDS implies (#[trigger] relax(
        start,
        constraints,
        rounds,
    )).body == body by {
        lemma_rounds_miss(start, constraints, rounds);
    }
}

proof fn lemma_rounds_miss(state: Relaxation, rules: Seq<(Type, Type)>, rounds: nat)
    requires
        forall|i: int, k: int|
            0 <= i < state.body.len() && 0 <= k < rules.len() ==> (
            #[trigger] state.body[i]).contents.typ != (#[trigger] rules[k]).0,
    ensures
        relax(state, rules, rounds).body == state.body,
    decreases rounds,
{
    if rounds > 0 {
        lemma_rounds_miss(state, rules, (rounds - 1) as nat);
        lemma_rules_miss(relax(state, rules, (rounds - 1) as nat), rules, rules.len());
    }
}

/// With no constraints the solver leaves the body unchanged.
pub proof fn lemma_solve_without_constraints(body: Seq<Span<SpecInstruction>>)
    ensures
        spec_solve(body, Seq::empty()) == body,
{
    lemma_solve_settled_body(body, Seq::empty());
}

/// The solver changes type slots only: the body keeps its length, and every
/// instruction its opcode, position and length.
pub proof fn lemma_solve_keeps_shape(
    body: Seq<Span<SpecInstruction>>,
    constraints: Seq<(Type, Type)>,
)
    ensures
        spec_solve(body, constraints).len() == body.len(),
        forall|i: int|
            #![trigger spec_solve(body, constraints)[i]]
            0 <= i < body.len() ==> {
                &&& spec_solve(body, constraints)[i].contents.ins == body[i].contents.ins
                &&& spec_solve(body, constraints)[i].pos == body[i].pos
                &&& spec_solve(body, constraints)[i].len == body[i].len
            },
{
    lemma_rounds_keep_shape(Relaxation { body, constraints }, constraints, ROUNDS as nat);
}

/// Opcode, position and length agree at every index.
spec fn same_shape(a: Seq<Span<SpecInstruction>>, b: Seq<Span<SpecInstruction>>) -> bool {
    &&& a.len() == b.len()
    &&& forall|i: int|
        #![trigger a[i]]
        #![trigger b[i]]
        0 <= i < a.len() ==> a[i].contents.ins == b[i].contents.ins && a[i].pos == b[i].pos
            && a[i].len == b[i].len
}

proof fn lemma_rules_keep_shape(state: Relaxation, rules: Seq<(Type, Type)>, count: nat)
    ensures
        same_shape(apply_rules(state, rules, count).body, state.body),
    decreases count,
{
    if count > 0 {
        lemma_rules_keep_shape(state, rules, (count - 1) as nat);
    }
}

proof fn lemma_rounds_keep_shape(state: Relaxation, rules: Seq<(Type, Type)>, rounds: nat)
    ensures
        same_shape(relax(state, rules, rounds).body, state.body),
    decreases rounds,
{
    if rounds > 0 {
        lemma_rounds_keep_shape(state, rules, (rounds - 1) as nat);
        lemma_rules_keep_shape(relax(state, rules, (rounds - 1) as nat), rules, rules.len());
    }
}

/// The slot at `i` after the first `count` rules, where the rule at `first`
/// is the first whose source is the slot's term and no rule has that rule's
/// target as its source: still the old term before `first`, the target from
/// then on.
proof fn lemma_rules_resolve(
    state: Relaxation,
    rules: Seq<(Type, Type)>,
    count: nat,
    i: int,
    first: int,
)
    requires
        count <= rules.len(),
        0 <= i < state.body.len(),
        0 <= first < rules.len(),
        forall|k: int| 0 <= k < first ==> (#[trigger] rules[k]).0 != rules[first].0,
        forall|k: int| 0 <= k < rules.len() ==> (#[trigger] rules[k]).0 != rules[first].1,
        state.body[i].contents.typ == rules[first].0 || state.body[i].contents.typ
            == rules[first].1,
    ensures
        apply_rules(state, rules, count).body.len() == state.body.len(),
        apply_rules(state, rules, count).body[i].contents.typ == if count <= first {
            state.body[i].contents.typ
        } else {
            rules[first].1
        },
    decreases count,
{
    if count > 0 {
        lemma_rules_resolve(state, rules, (count - 1) as nat, i, first);
    }
}

proof fn lemma_rounds_resolve(
    state: Relaxation,
    rules: Seq<(Type, Type)>,
    rounds: nat,
    i: int,
    first: int,
)
    requires
        rounds > 0,
        0 <= i < state.body.len(),
        0 <= first < rules.len(),
        forall|k: int| 0 <= k < first ==> (#[trigger] rules[k]).0 != rules[first].0,
        forall|k: int| 0 <= k < rules.len() ==> (#[trigger] rules[k]).0 != rules[first].1,
        state.body[i].contents.typ == rules[first].0,
    ensures
        relax(state, rules, rounds).body.len() == state.body.len(),
        relax(state, rules, rounds).body[i].contents.typ == rules[first].1,
    decreases rounds,
{
    if rounds == 1 {
        assert(relax(state, rules, 0) == state);
        lemma_rules_resolve(state, rules, rules.len(), i, first);
    } else {
        lemma_rounds_resolve(state, rules, (rounds - 1) as nat, i, first);
        lemma_rules_resolve(
            relax(state, rules, (rounds - 1) as nat),
            rules,
            rules.len(),
            i,
            first,
        );
    }
}

/// A slot is resolved to the target of the first rule whose source it
/// holds, provided that no rule rewrites that target in turn.
pub proof fn lemma_solve_resolves_slot(
    body: Seq<Span<SpecInstruction>>,
    constraints: Seq<(Type, Type)>,
    i: int,
    first: int,
)
    requires
        0 <= i < body.len(),
        0 <= first < constraints.len(),
        body[i].contents.typ == constraints[first].0,
        forall|k: int| 0 <= k < first ==> (#[trigger] constraints[k]).0 != constraints[first].0,
        forall|k: int|
            0 <= k < constraints.len() ==> (#[trigger] constraints[k]).0 != constraints[first].1,
    ensures
        spec_solve(body, constraints).len() == body.len(),
        spec_solve(body, constraints)[i].contents.typ == constraints[first].1,
{
    lemma_rounds_resolve(Relaxation { body, constraints }, constraints, ROUNDS as nat, i, first);
}

} // verus!
