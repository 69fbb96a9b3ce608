//! Type representation: interned names, opaque type handles, and the closed
//! set of type shapes.
//!
//! Composite types (records, arrays, aliases) never point at each other
//! directly; they hold a [`TypeRef`], an index into the [`crate::table::TypeTable`]
//! that owns every shape. Nominal identity for composites is therefore
//! ordinary index equality.

use vstd::prelude::*;

verus! {

/// An interned name (a type name or a record field name). Equality is by
/// identity of the interned string, which the surrounding compiler's interner
/// guarantees; here that identity is the interner's integer key.
#[derive(Clone, Copy, PartialEq, Eq, Structural, Debug)]
pub struct Symbol(pub u64);

/// An opaque handle identifying one declared or built-in type inside the
/// [`crate::table::TypeTable`]. This is the only way composite types reference
/// other types; it never owns an allocation.
#[derive(Clone, Copy, PartialEq, Eq, Structural, Debug)]
pub struct TypeRef(pub usize);

/// The shape stored for one [`TypeRef`].
#[derive(PartialEq, Eq, Debug)]
pub enum Type {
    /// Ordered fields, each a name and the handle of its type. Field names
    /// are unique within one record.
    Record(Vec<(Symbol, TypeRef)>),
    /// An array with the given element type.
    Array(TypeRef),
    /// A pure rename of another declared type, no indirection.
    Alias(TypeRef),
    /// The type of expressions with no value.
    Unit,
    /// The type of the `nil` literal, assignable to any record-typed slot.
    Nil,
    /// The built-in integer type.
    Int,
    /// The built-in string type.
    String,
    /// Sentinel standing in for "already reported" (bottom); it unifies
    /// successfully with anything, so one root cause does not cascade.
    Error,
}

/// The mathematical value of a [`Type`]: the same shape with the record's
/// field vector abstracted to a sequence.
#[verifier::ext_equal]
pub ghost enum Shape {
    Record(Seq<(Symbol, TypeRef)>),
    Array(TypeRef),
    Alias(TypeRef),
    Unit,
    Nil,
    Int,
    String,
    Error,
}

impl View for Type {
    type V = Shape;

    open spec fn view(&self) -> Shape {
        match self {
            Type::Record(fields) => Shape::Record(fields@),
            Type::Array(elem) => Shape::Array(*elem),
            Type::Alias(target) => Shape::Alias(*target),
            Type::Unit => Shape::Unit,
            Type::Nil => Shape::Nil,
            Type::Int => Shape::Int,
            Type::String => Shape::String,
            Type::Error => Shape::Error,
        }
    }
}

impl Clone for Type {
    /// Cloning preserves the shape.
    fn clone(&self) -> (res: Self)
        ensures
            res@ == self@,
    {
        match self {
            Type::Record(fields) => {
                let mut copy: Vec<(Symbol, TypeRef)> = Vec::new();
                let mut i: usize = 0;
                while i < fields.len()
                    invariant
                        i <= fields.len(),
                        copy@ == fields@.subrange(0, i as int),
                    decreases fields.len() - i,
                {
                    copy.push(fields[i]);
                    proof {
                        assert(copy@ =~= fields@.subrange(0, i + 1 as int));
                    }
                    i = i + 1;
                }
                proof {
                    assert(copy@ =~= fields@);
                }
                Type::Record(copy)
            },
            Type::Array(elem) => Type::Array(*elem),
            Type::Alias(target) => Type::Alias(*target),
            Type::Unit => Type::Unit,
            Type::Nil => Type::Nil,
            Type::Int => Type::Int,
            Type::String => Type::String,
            Type::Error => Type::Error,
        }
    }
}

} // verus!
