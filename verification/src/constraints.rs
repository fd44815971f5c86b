//! Equality constraints between type terms: how a raw pair is normalized into
//! a substitution rule, and how a rule rewrites type slots.

use vstd::prelude::*;
use crate::errors::Span;
use crate::ir::{Instruction, SpecInstruction};
use crate::types::Type;

verus! {

/// The rule that the raw pair `(t1, t2)` becomes, or `None` where the pair
/// is dropped.
///
/// A pair of equal terms, or one with a wildcard on either side, is dropped.
/// Otherwise the rule reads "replace the first term by the second", and an
/// inference variable or a literal placeholder on the right is moved to the
/// left, so that it is the side that goes away.
pub open spec fn normalize(t1: Type, t2: Type) -> Option<(Type, Type)> {
    if t1 == t2 || t1.is_wildcard() || t2.is_wildcard() {
        None
    } else if t2.is_eliminable() {
        Some((t2, t1))
    } else {
        Some((t1, t2))
    }
}

/// What every recorded rule looks like: two different terms, neither a
/// wildcard, and the one that can be eliminated on the left, unless both
/// can.
pub open spec fn is_rule(rule: (Type, Type)) -> bool {
    &&& rule.0 != rule.1
    &&& !rule.0.is_wildcard()
    &&& !rule.1.is_wildcard()
    &&& rule.1.is_eliminable() ==> rule.0.is_eliminable()
}

/// Every entry of the list is a rule.
pub open spec fn all_rules(constraints: Seq<(Type, Type)>) -> bool {
    forall|k: int| 0 <= k < constraints.len() ==> is_rule(#[trigger] constraints[k])
}

/// The constraint list after the raw pair `(t1, t2)` has been offered to it.
pub open spec fn with_constraint(constraints: Seq<(Type, Type)>, t1: Type, t2: Type) -> Seq<
    (Type, Type),
> {
    match normalize(t1, t2) {
        Some(rule) => constraints.push(rule),
        None => constraints,
    }
}

/// `t` after the rule `(source, target)`: a whole-term replacement.
pub open spec fn substitute(t: Type, source: Type, target: Type) -> Type {
    if t == source {
        target
    } else {
        t
    }
}

/// An instruction whose type slot went through the rule; opcode, position
/// and length stay.
pub open spec fn retype(ins: Span<SpecInstruction>, source: Type, target: Type) -> Span<
    SpecInstruction,
> {
    Span {
        contents: SpecInstruction {
            ins: ins.contents.ins,
            typ: substitute(ins.contents.typ, source, target),
        },
        pos: ins.pos,
        len: ins.len,
    }
}

/// A body with the rule applied to every type slot.
pub open spec fn spec_substitute_proc_body(
    body: Seq<Span<SpecInstruction>>,
    source: Type,
    target: Type,
) -> Seq<Span<SpecInstruction>> {
    Seq::new(body.len(), |i: int| retype(body[i], source, target))
}

/// A constraint list with the rule applied to both sides of every entry.
pub open spec fn spec_substitute_constraints(
    constraints: Seq<(Type, Type)>,
    source: Type,
    target: Type,
) -> Seq<(Type, Type)> {
    Seq::new(
        constraints.len(),
        |i: int|
            (
                substitute(constraints[i].0, source, target),
                substitute(constraints[i].1, source, target),
            ),
    )
}

/// Applies the rule `(t1, t2)` to every type slot of `body`.
pub fn substitute_proc_body(body: Vec<Span<Instruction>>, t1: &Type, t2: &Type) -> (new_body: Vec<
    Span<Instruction>,
>)
    ensures
        new_body.deep_view() == spec_substitute_proc_body(body.deep_view(), *t1, *t2),
{
    let mut new_body: Vec<Span<Instruction>> = Vec::new();
    let ghost old_body = body.deep_view();
    for ins in it: body
        invariant
            it.seq().len() == old_body.len(),
            forall|k: int| 0 <= k < old_body.len() ==> (#[trigger] it.seq()[k]).deep_view() == old_body[k],
            new_body.len() == it.index(),
            forall|k: int|
                0 <= k < new_body.len() ==> (#[trigger] new_body[k]).deep_view() == retype(
                    old_body[k],
                    *t1,
                    *t2,
                ),
    {
        let typ = if ins.contents.typ.same(t1) {
            t2.clone()
        } else {
            ins.contents.typ
        };
        new_body.push(
            Span { contents: Instruction { ins: ins.contents.ins, typ }, pos: ins.pos, len: ins.len },
        );
    }
    assert(new_body.deep_view() =~= spec_substitute_proc_body(old_body, *t1, *t2));
    new_body
}

/// Applies the rule `(t1, t2)` to both sides of every constraint.
pub fn substitute_constraints(constraints: &Vec<(Type, Type)>, t1: &Type, t2: &Type) -> (new_constraints:
    Vec<(Type, Type)>)
    ensures
        new_constraints@ == spec_substitute_constraints(constraints@, *t1, *t2),
{
    let mut new_constraints: Vec<(Type, Type)> = Vec::new();
    let mut i: usize = 0;
    while i < constraints.len()
        invariant
            i <= constraints.len(),
            new_constraints.len() == i,
            forall|k: int|
                0 <= k < i ==> #[trigger] new_constraints[k] == (
                    substitute(constraints[k].0, *t1, *t2),
                    substitute(constraints[k].1, *t1, *t2),
                ),
        decreases constraints.len() - i,
    {
        let new_left = if constraints[i].0.same(t1) {
            t2.clone()
        } else {
            constraints[i].0.clone()
        };
        let new_right = if constraints[i].1.same(t1) {
            t2.clone()
        } else {
            constraints[i].1.clone()
        };
        new_constraints.push((new_left, new_right));
        i += 1;
    }
    assert(new_constraints@ =~= spec_substitute_constraints(constraints@, *t1, *t2));
    new_constraints
}

/// What normalization records is a rule, and a list of rules stays one
/// when a pair is offered to it.
pub proof fn lemma_normalize_gives_rules(constraints: Seq<(Type, Type)>, t1: Type, t2: Type)
    ensures
        normalize(t1, t2) matches Some(rule) ==> is_rule(rule),
        all_rules(constraints) ==> all_rules(with_constraint(constraints, t1, t2)),
{
}

/// A pair of equal terms is never recorded.
pub proof fn lemma_equal_pair_is_dropped(constraints: Seq<(Type, Type)>, t: Type)
    ensures
        normalize(t, t) is None,
        with_constraint(constraints, t, t) == constraints,
{
}

/// Normalizing a rule that normalization produced gives the same rule
/// again, provided that the rule's target is neither an inference variable
/// nor a literal placeholder.
pub proof fn lemma_normalize_idempotent(t1: Type, t2: Type)
    requires
        normalize(t1, t2) is Some,
        !normalize(t1, t2)->Some_0.1.is_eliminable(),
    ensures
        ({
            let rule = normalize(t1, t2)->Some_0;
            normalize(rule.0, rule.1) == Some(rule)
        }),
{
}

/// Where the target of a rule is itself an inference variable or a literal
/// placeholder, so is its source, and normalizing the rule swaps the two.
pub proof fn lemma_normalize_swaps(t1: Type, t2: Type)
    requires
        normalize(t1, t2) is Some,
        normalize(t1, t2)->Some_0.1.is_eliminable(),
    ensures
        ({
            let rule = normalize(t1, t2)->Some_0;
            &&& rule.0.is_eliminable()
            &&& normalize(rule.0, rule.1) == Some((rule.1, rule.0))
        }),
{
}

} // verus!
