//! The unifier: decides compatibility of two already-resolved types for the
//! expression checker, at every point where two types must agree (assignment,
//! comparison, argument and return positions, branch merging).

use crate::diag::TypeError;
use crate::table::{spec_resolve, table_wf, TableView, TypeTable};
use crate::ty::{Shape, Type, TypeRef};
use vstd::prelude::*;

verus! {

/// What [`TypeTable::unify`] returns, over the table's mathematical value.
///
/// Both handles are resolved to the ends of their alias chains; then:
/// the `Error` sentinel unifies with anything (suppressing cascades), equal
/// leaf kinds unify to themselves, `Nil` unifies with any record (and with
/// itself), composites unify exactly when they are the identical handle
/// (nominal identity), and every other pairing is a `TypeMismatch` carrying
/// the expected and the found handle. A handle that does not resolve is a
/// violated internal invariant, which is fatal rather than user-facing.
pub open spec fn spec_unify(v: TableView, t1: TypeRef, t2: TypeRef) -> Result<
    TypeRef,
    TypeError,
> {
    match (spec_resolve(v, t1), spec_resolve(v, t2)) {
        (Some(e1), Some(e2)) => {
            let s1 = v.shapes[e1.0 as int].unwrap();
            let s2 = v.shapes[e2.0 as int].unwrap();
            if s1 is Error {
                Ok(e1)
            } else if s2 is Error {
                Ok(e2)
            } else {
                match (s1, s2) {
                    (Shape::Unit, Shape::Unit) => Ok(e1),
                    (Shape::Int, Shape::Int) => Ok(e1),
                    (Shape::String, Shape::String) => Ok(e1),
                    (Shape::Nil, Shape::Nil) => Ok(e1),
                    (Shape::Nil, Shape::Record(_)) => Ok(e2),
                    (Shape::Record(_), Shape::Nil) => Ok(e1),
                    (Shape::Record(_), Shape::Record(_)) => if e1 == e2 {
                        Ok(e1)
                    } else {
                        Err(TypeError::TypeMismatch(e1, e2))
                    },
                    (Shape::Array(_), Shape::Array(_)) => if e1 == e2 {
                        Ok(e1)
                    } else {
                        Err(TypeError::TypeMismatch(e1, e2))
                    },
                    _ => Err(TypeError::TypeMismatch(e1, e2)),
                }
            }
        },
        _ => Err(TypeError::UnresolvedNameInvariantViolation),
    }
}

/// Nominal identity: two distinct record types never unify, however alike
/// their field lists. Compatibility of composites is identity of the
/// declaration that produced them, never structural comparison.
pub proof fn lemma_nominal_identity(v: TableView, t1: TypeRef, t2: TypeRef)
    requires
        spec_resolve(v, t1) matches Some(e1) && v.shapes[e1.0 as int].unwrap() is Record,
        spec_resolve(v, t2) matches Some(e2) && v.shapes[e2.0 as int].unwrap() is Record,
        spec_resolve(v, t1) != spec_resolve(v, t2),
    ensures
        spec_unify(v, t1, t2) == Err::<TypeRef, TypeError>(
            TypeError::TypeMismatch(
                spec_resolve(v, t1).unwrap(),
                spec_resolve(v, t2).unwrap(),
            ),
        ),
{
}

/// `Nil` is assignable to any record-typed slot: unifying `Nil` with a type
/// that resolves to a record yields that record type, in either order.
pub proof fn lemma_nil_unifies_with_record(v: TableView, t1: TypeRef, t2: TypeRef)
    requires
        spec_resolve(v, t1) matches Some(e1) && v.shapes[e1.0 as int].unwrap() is Nil,
        spec_resolve(v, t2) matches Some(e2) && v.shapes[e2.0 as int].unwrap() is Record,
    ensures
        spec_unify(v, t1, t2) == Ok::<TypeRef, TypeError>(spec_resolve(v, t2).unwrap()),
        spec_unify(v, t2, t1) == Ok::<TypeRef, TypeError>(spec_resolve(v, t2).unwrap()),
{
}

impl TypeTable {
    /// Decides whether two types agree and what the agreement is: the common
    /// resolved type on success, or the precise diagnostic on failure, as
    /// [`spec_unify`] states. Never panics; an unfilled placeholder comes
    /// back as the fatal `UnresolvedNameInvariantViolation`.
    pub fn unify(&self, t1: TypeRef, t2: TypeRef) -> (r: Result<TypeRef, TypeError>)
        requires
            table_wf(self@),
        ensures
            r == spec_unify(self@, t1, t2),
    {
        let e1 = match self.resolve_ref(t1) {
            Ok(e) => e,
            Err(err) => {
                return Err(err);
            },
        };
        let e2 = match self.resolve_ref(t2) {
            Ok(e) => e,
            Err(err) => {
                return Err(err);
            },
        };
        proof {
            crate::table::lemma_chain_end_some(self@.shapes, t1, self@.shapes.len());
            crate::table::lemma_chain_end_some(self@.shapes, t2, self@.shapes.len());
        }
        match (self.shape_of(e1), self.shape_of(e2)) {
            (Some(Type::Error), _) => Ok(e1),
            (_, Some(Type::Error)) => Ok(e2),
            (Some(Type::Unit), Some(Type::Unit)) => Ok(e1),
            (Some(Type::Int), Some(Type::Int)) => Ok(e1),
            (Some(Type::String), Some(Type::String)) => Ok(e1),
            (Some(Type::Nil), Some(Type::Nil)) => Ok(e1),
            (Some(Type::Nil), Some(Type::Record(_))) => Ok(e2),
            (Some(Type::Record(_)), Some(Type::Nil)) => Ok(e1),
            (Some(Type::Record(_)), Some(Type::Record(_))) => if e1.0 == e2.0 {
                Ok(e1)
            } else {
                Err(TypeError::TypeMismatch(e1, e2))
            },
            (Some(Type::Array(_)), Some(Type::Array(_))) => if e1.0 == e2.0 {
                Ok(e1)
            } else {
                Err(TypeError::TypeMismatch(e1, e2))
            },
            _ => Err(TypeError::TypeMismatch(e1, e2)),
        }
    }
}

} // verus!
