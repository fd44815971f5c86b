//! The scope table of the procedure under analysis.

use vstd::prelude::*;
use crate::errors::ErrorKind;
use crate::types::Type;

verus! {

/// The bindings that a list of insertions leaves behind: a later insertion
/// of a name replaces an earlier one.
pub open spec fn bindings(entries: Seq<(Seq<char>, Type)>) -> Map<Seq<char>, Type>
    decreases entries.len(),
{
    if entries.len() == 0 {
        Map::empty()
    } else {
        bindings(entries.drop_last()).insert(entries.last().0, entries.last().1)
    }
}

/// The bindings of a procedure's arguments, inserted in declaration order.
pub open spec fn argument_bindings(args: Seq<Seq<char>>, arg_types: Seq<Type>) -> Map<
    Seq<char>,
    Type,
>
    recommends
        args.len() == arg_types.len(),
{
    bindings(Seq::new(arg_types.len(), |i: int| (args[i], arg_types[i])))
}

/// If no entry from `from` on binds `name`, the entries before `from` decide
/// what `name` is bound to.
proof fn lemma_bindings_skip(entries: Seq<(Seq<char>, Type)>, from: int, name: Seq<char>)
    requires
        0 <= from <= entries.len(),
        forall|j: int| from <= j < entries.len() ==> entries[j].0 != name,
    ensures
        bindings(entries).contains_key(name) == bindings(entries.take(from)).contains_key(name),
        bindings(entries).contains_key(name) ==> bindings(entries)[name] == bindings(
            entries.take(from),
        )[name],
    decreases entries.len() - from,
{
    if from == entries.len() {
        assert(entries.take(from) =~= entries);
    } else {
        let shorter = entries.drop_last();
        assert(shorter.take(from) =~= entries.take(from));
        lemma_bindings_skip(shorter, from, name);
    }
}

/// A mapping from variable name to type term.
pub struct Scope {
    entries: Vec<(String, Type)>,
}

impl View for Scope {
    type V = Map<Seq<char>, Type>;

    closed spec fn view(&self) -> Map<Seq<char>, Type> {
        bindings(self.entries.deep_view())
    }
}

impl Scope {
    /// The empty scope.
    pub fn new() -> (scope: Scope)
        ensures
            scope@ == Map::<Seq<char>, Type>::empty(),
    {
        let scope = Scope { entries: Vec::new() };
        assert(scope.entries.deep_view() =~= Seq::empty());
        scope
    }

    /// Binds `name` to `typ`, replacing what it was bound to before.
    pub fn insert(&mut self, name: String, typ: Type)
        ensures
            final(self)@ == old(self)@.insert(name@, typ),
    {
        let ghost before = self.entries.deep_view();
        self.entries.push((name, typ));
        proof {
            let after = self.entries.deep_view();
            assert(after.drop_last() =~= before);
            assert(after.last() == (name@, typ));
        }
    }

    /// Looks `name` up in the scope.
    pub fn locate_var(&self, name: &String) -> (found: Result<Type, ErrorKind>)
        ensures
            found == if self@.contains_key(name@) {
                Ok::<Type, ErrorKind>(self@[name@])
            } else {
                Err::<Type, ErrorKind>(ErrorKind::UnresolvedSymbol)
            },
    {
        match self.get(name) {
            Some(typ) => Ok(typ),
            None => Err(ErrorKind::UnresolvedSymbol),
        }
    }

    /// The type that `name` is bound to, if it is bound.
    pub fn get(&self, name: &String) -> (found: Option<Type>)
        ensures
            found == if self@.contains_key(name@) {
                Some(self@[name@])
            } else {
                None
            },
    {
        let ghost entries = self.entries.deep_view();
        let mut i: usize = self.entries.len();
        while i > 0
            invariant
                i <= self.entries.len(),
                entries == self.entries.deep_view(),
                forall|j: int| i <= j < entries.len() ==> entries[j].0 != name@,
            decreases i,
        {
            i -= 1;
            if self.entries[i].0 == *name {
                proof {
                    lemma_bindings_skip(entries, i + 1, name@);
                    assert(entries.take(i + 1).drop_last() =~= entries.take(i as int));
                    assert(entries.take(i + 1).last() == entries[i as int]);
                }
                return Some(self.entries[i].1.clone());
            }
        }
        proof {
            lemma_bindings_skip(entries, 0, name@);
            assert(entries.take(0) =~= Seq::empty());
        }
        None
    }
}

} // verus!
