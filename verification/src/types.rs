//! The type algebra: every term a constraint can mention.

use vstd::prelude::*;

verus! {

/// A type term.
///
/// Concrete types, the placeholders attached to literals before their type is
/// fixed, inference variables, and the two markers `Unknown` (the programmer
/// wrote no type) and `Undefined` (there is no value).
#[derive(Debug)]
pub enum Type {
    I8,
    I16,
    I32,
    I64,
    I128,
    N8,
    N16,
    N32,
    N64,
    N128,
    F32,
    F64,
    F128,
    Bool,
    Ptr(Box<Type>),
    Array(usize, Box<Type>),
    Unknown,
    Undefined,
    IntLiteral,
    FloatLiteral,
    StrLiteral,
    Variable(usize),
}

impl Type {
    /// A wildcard takes part in no constraint: string literals are not typed
    /// any further, and `Undefined` unifies with everything.
    pub open spec fn is_wildcard(self) -> bool {
        self is StrLiteral || self is Undefined
    }

    /// A term that a constraint eliminates when it stands on the right:
    /// an inference variable or a literal placeholder.
    pub open spec fn is_eliminable(self) -> bool {
        self is Variable || self is IntLiteral || self is FloatLiteral || self is StrLiteral
    }

    /// Structural equality of two terms.
    pub fn same(&self, other: &Type) -> (r: bool)
        ensures
            r == (*self == *other),
        decreases *self,
    {
        match (self, other) {
            (Type::I8, Type::I8) => true,
            (Type::I16, Type::I16) => true,
            (Type::I32, Type::I32) => true,
            (Type::I64, Type::I64) => true,
            (Type::I128, Type::I128) => true,
            (Type::N8, Type::N8) => true,
            (Type::N16, Type::N16) => true,
            (Type::N32, Type::N32) => true,
            (Type::N64, Type::N64) => true,
            (Type::N128, Type::N128) => true,
            (Type::F32, Type::F32) => true,
            (Type::F64, Type::F64) => true,
            (Type::F128, Type::F128) => true,
            (Type::Bool, Type::Bool) => true,
            (Type::Ptr(a), Type::Ptr(b)) => a.same(b),
            (Type::Array(n, a), Type::Array(m, b)) => *n == *m && a.same(b),
            (Type::Unknown, Type::Unknown) => true,
            (Type::Undefined, Type::Undefined) => true,
            (Type::IntLiteral, Type::IntLiteral) => true,
            (Type::FloatLiteral, Type::FloatLiteral) => true,
            (Type::StrLiteral, Type::StrLiteral) => true,
            (Type::Variable(a), Type::Variable(b)) => *a == *b,
            _ => false,
        }
    }

    /// Whether the term is an inference variable or a literal placeholder.
    pub fn eliminable(&self) -> (r: bool)
        ensures
            r == self.is_eliminable(),
    {
        match self {
            Type::Variable(_) => true,
            Type::IntLiteral => true,
            Type::FloatLiteral => true,
            Type::StrLiteral => true,
            _ => false,
        }
    }

    /// Whether the term is one of the two wildcards.
    pub fn wildcard(&self) -> (r: bool)
        ensures
            r == self.is_wildcard(),
    {
        match self {
            Type::StrLiteral => true,
            Type::Undefined => true,
            _ => false,
        }
    }
}

impl Clone for Type {
    fn clone(&self) -> (r: Type)
        ensures
            r == *self,
        decreases *self,
    {
        match self {
            Type::I8 => Type::I8,
            Type::I16 => Type::I16,
            Type::I32 => Type::I32,
            Type::I64 => Type::I64,
            Type::I128 => Type::I128,
            Type::N8 => Type::N8,
            Type::N16 => Type::N16,
            Type::N32 => Type::N32,
            Type::N64 => Type::N64,
            Type::N128 => Type::N128,
            Type::F32 => Type::F32,
            Type::F64 => Type::F64,
            Type::F128 => Type::F128,
            Type::Bool => Type::Bool,
            Type::Ptr(inner) => Type::Ptr(Box::new((**inner).clone())),
            Type::Array(size, inner) => Type::Array(*size, Box::new((**inner).clone())),
            Type::Unknown => Type::Unknown,
            Type::Undefined => Type::Undefined,
            Type::IntLiteral => Type::IntLiteral,
            Type::FloatLiteral => Type::FloatLiteral,
            Type::StrLiteral => Type::StrLiteral,
            Type::Variable(id) => Type::Variable(*id),
        }
    }
}

impl PartialEq for Type {
    fn eq(&self, other: &Type) -> (r: bool) {
        self.same(other)
    }
}

impl Eq for Type {

}

impl vstd::std_specs::cmp::PartialEqSpecImpl for Type {
    open spec fn obeys_eq_spec() -> bool {
        true
    }

    open spec fn eq_spec(&self, other: &Type) -> bool {
        *self == *other
    }
}

impl DeepView for Type {
    type V = Type;

    open spec fn deep_view(&self) -> Type {
        *self
    }
}

} // verus!
