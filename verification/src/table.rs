//! The type table: owner of every declared type's identity and shape, and of
//! the lexical scoping of type names.
//!
//! A [`TypeRef`] is an index into the table's shape arena. A declaration first
//! registers a placeholder (an unfilled slot) and the resolver fills it
//! exactly once; built-in leaves occupy the first five slots of every table.
//! Scopes are a stack of binding frames; the innermost binding of a name wins.

use crate::diag::TypeError;
use crate::ty::{Shape, Symbol, Type, TypeRef};
use vstd::prelude::*;

verus! {

/// The mathematical value of a [`TypeTable`]: the shape arena, the scope
/// stack (innermost frame last), and the start of the current declaration
/// batch within the innermost frame.
#[verifier::ext_equal]
pub ghost struct TableView {
    pub shapes: Seq<Option<Shape>>,
    pub scopes: Seq<Seq<(Symbol, TypeRef)>>,
    pub batch_start: nat,
}

/// A shape stored in a table with `n` slots may only reference slots below
/// `n`, and a record's field names are unique.
pub open spec fn shape_wf(s: Shape, n: nat) -> bool {
    match s {
        Shape::Record(fields) => {
            &&& forall|i: int| 0 <= i < fields.len() ==> (#[trigger] fields[i]).1.0 < n
            &&& forall|i: int, j: int|
                0 <= i < j < fields.len() ==> (#[trigger] fields[i]).0 != (#[trigger] fields[j]).0
        },
        Shape::Array(elem) => elem.0 < n,
        Shape::Alias(target) => target.0 < n,
        _ => true,
    }
}

/// Well-formedness of a table: the five built-in leaves sit in their fixed
/// slots, every stored shape and every binding points into the arena, at
/// least the base scope exists, and the batch marker lies within the
/// innermost frame.
pub open spec fn table_wf(v: TableView) -> bool {
    &&& v.shapes.len() >= 5
    &&& v.shapes[0] == Some(Shape::Unit)
    &&& v.shapes[1] == Some(Shape::Nil)
    &&& v.shapes[2] == Some(Shape::Int)
    &&& v.shapes[3] == Some(Shape::String)
    &&& v.shapes[4] == Some(Shape::Error)
    &&& forall|i: int|
        0 <= i < v.shapes.len() ==> match #[trigger] v.shapes[i] {
            Some(s) => shape_wf(s, v.shapes.len()),
            None => true,
        }
    &&& v.scopes.len() >= 1
    &&& forall|i: int, j: int|
        0 <= i < v.scopes.len() && 0 <= j < v.scopes[i].len() ==> (#[trigger] v.scopes[i][j]).1.0
            < v.shapes.len()
    &&& v.batch_start <= v.scopes.last().len()
}

/// The handle of the built-in `Unit` leaf, the same in every table.
pub fn unit_ref() -> (r: TypeRef)
    ensures
        r == TypeRef(0),
{
    TypeRef(0)
}

/// The handle of the built-in `Nil` leaf, the same in every table.
pub fn nil_ref() -> (r: TypeRef)
    ensures
        r == TypeRef(1),
{
    TypeRef(1)
}

/// The handle of the built-in `Int` leaf, the same in every table.
pub fn int_ref() -> (r: TypeRef)
    ensures
        r == TypeRef(2),
{
    TypeRef(2)
}

/// The handle of the built-in `String` leaf, the same in every table.
pub fn string_ref() -> (r: TypeRef)
    ensures
        r == TypeRef(3),
{
    TypeRef(3)
}

/// The handle of the built-in `Error` (bottom) leaf, the same in every table.
pub fn error_ref() -> (r: TypeRef)
    ensures
        r == TypeRef(4),
{
    TypeRef(4)
}

/// Maps `(scope, name) -> TypeRef` and `TypeRef -> shape` for one
/// compilation run. It is an explicit context object: mutated only by the
/// resolver (write-once shape assignment) and by scope entry/exit, read by
/// the unifier and the expression checker.
pub struct TypeTable {
    shapes: Vec<Option<Type>>,
    scopes: Vec<Vec<(Symbol, TypeRef)>>,
    batch_start: usize,
}

impl View for TypeTable {
    type V = TableView;

    closed spec fn view(&self) -> TableView {
        TableView {
            shapes: self.shapes@.map_values(
                |o: Option<Type>|
                    match o {
                        Some(t) => Some(t@),
                        None => None::<Shape>,
                    },
            ),
            scopes: self.scopes@.map_values(|f: Vec<(Symbol, TypeRef)>| f@),
            batch_start: self.batch_start as nat,
        }
    }
}

/// Whether `name` is already bound in the current declaration batch (the tail
/// of the innermost frame that begins at the batch marker).
pub open spec fn batch_dup(v: TableView, name: Symbol) -> bool {
    exists|i: int|
        v.batch_start <= i < v.scopes.last().len() && (#[trigger] v.scopes.last()[i]).0 == name
}

/// What [`TypeTable::declare`] does: either refuse a same-batch repeat and
/// leave the table unchanged, or append an unfilled slot and bind the name to
/// it in the innermost frame.
pub open spec fn spec_declare(v: TableView, name: Symbol) -> (TableView, Option<TypeRef>) {
    if batch_dup(v, name) {
        (v, None::<TypeRef>)
    } else {
        let tr = TypeRef(v.shapes.len() as usize);
        (
            TableView {
                shapes: v.shapes.push(None::<Shape>),
                scopes: v.scopes.update(
                    v.scopes.len() - 1,
                    v.scopes.last().push((name, tr)),
                ),
                batch_start: v.batch_start,
            },
            Some(tr),
        )
    }
}

/// The binding a lookup of `name` finds within one frame: the latest one.
pub open spec fn frame_lookup(frame: Seq<(Symbol, TypeRef)>, name: Symbol) -> Option<TypeRef>
    decreases frame.len(),
{
    if frame.len() == 0 {
        None::<TypeRef>
    } else if frame.last().0 == name {
        Some(frame.last().1)
    } else {
        frame_lookup(frame.drop_last(), name)
    }
}

/// The binding a lookup of `name` finds: the innermost frame that binds it
/// wins (lexical shadowing), and within a frame the latest binding wins.
pub open spec fn spec_lookup(scopes: Seq<Seq<(Symbol, TypeRef)>>, name: Symbol) -> Option<
    TypeRef,
>
    decreases scopes.len(),
{
    if scopes.len() == 0 {
        None::<TypeRef>
    } else {
        match frame_lookup(scopes.last(), name) {
            Some(tr) => Some(tr),
            None => spec_lookup(scopes.drop_last(), name),
        }
    }
}

/// The slot a chain of pure aliases starting at `tr` ends on, or `None` if it
/// leaves the arena, meets an unfilled placeholder, or does not terminate
/// within `fuel` alias steps. A chain of distinct pure aliases is never
/// longer than the arena, so `fuel == shapes.len()` only cuts off cycles.
pub open spec fn chain_end(shapes: Seq<Option<Shape>>, tr: TypeRef, fuel: nat) -> Option<TypeRef>
    decreases fuel,
{
    if tr.0 >= shapes.len() {
        None::<TypeRef>
    } else {
        match shapes[tr.0 as int] {
            None => None::<TypeRef>,
            Some(Shape::Alias(next)) => if fuel == 0 {
                None::<TypeRef>
            } else {
                chain_end(shapes, next, (fuel - 1) as nat)
            },
            Some(_) => Some(tr),
        }
    }
}

/// What a handle resolves to in a table: the end of its pure-alias chain.
pub open spec fn spec_resolve(v: TableView, tr: TypeRef) -> Option<TypeRef> {
    chain_end(v.shapes, tr, v.shapes.len())
}

/// A successful `chain_end` lands on a filled slot that is not an alias.
pub proof fn lemma_chain_end_some(shapes: Seq<Option<Shape>>, tr: TypeRef, fuel: nat)
    ensures
        chain_end(shapes, tr, fuel) matches Some(e) ==> {
            &&& e.0 < shapes.len()
            &&& shapes[e.0 as int] matches Some(s) && !(s is Alias)
        },
    decreases fuel,
{
    if tr.0 < shapes.len() {
        match shapes[tr.0 as int] {
            Some(Shape::Alias(next)) => {
                if fuel > 0 {
                    lemma_chain_end_some(shapes, next, (fuel - 1) as nat);
                }
            },
            _ => {},
        }
    }
}

/// Resolution is idempotent: the handle a resolution lands on resolves to
/// itself. Together with resolution being a pure function of the table's
/// contents, repeated [`TypeTable::resolve`] calls on one handle after
/// resolution always return the identical shape.
pub proof fn lemma_resolve_idempotent(v: TableView, tr: TypeRef)
    ensures
        spec_resolve(v, tr) matches Some(e) ==> spec_resolve(v, e) == Some(e),
{
    match spec_resolve(v, tr) {
        Some(e) => {
            lemma_chain_end_some(v.shapes, tr, v.shapes.len());
        },
        None => {},
    }
}

/// Lexical shadowing is scoped: pushing a frame (however many bindings it
/// gathers) and popping it restores every lookup to what it was before the
/// frame was entered.
pub proof fn lemma_scope_exit_restores_lookup(
    scopes: Seq<Seq<(Symbol, TypeRef)>>,
    frame: Seq<(Symbol, TypeRef)>,
    name: Symbol,
)
    ensures
        spec_lookup(scopes.push(frame).drop_last(), name) == spec_lookup(scopes, name),
{
    assert(scopes.push(frame).drop_last() =~= scopes);
}

/// Growing the arena keeps every existing shape well formed.
pub proof fn lemma_shape_wf_mono(s: Shape, n1: nat, n2: nat)
    requires
        shape_wf(s, n1),
        n1 <= n2,
    ensures
        shape_wf(s, n2),
{
}

impl TypeTable {
    /// A fresh table: the five built-in leaves and one empty base scope.
    pub fn new() -> (t: TypeTable)
        ensures
            table_wf(t@),
            t@.shapes =~= seq![
                Some(Shape::Unit),
                Some(Shape::Nil),
                Some(Shape::Int),
                Some(Shape::String),
                Some(Shape::Error),
            ],
            t@.scopes =~= seq![Seq::<(Symbol, TypeRef)>::empty()],
            t@.batch_start == 0,
    {
        let mut shapes: Vec<Option<Type>> = Vec::new();
        shapes.push(Some(Type::Unit));
        shapes.push(Some(Type::Nil));
        shapes.push(Some(Type::Int));
        shapes.push(Some(Type::String));
        shapes.push(Some(Type::Error));
        let mut scopes: Vec<Vec<(Symbol, TypeRef)>> = Vec::new();
        scopes.push(Vec::new());
        let t = TypeTable { shapes, scopes, batch_start: 0 };
        proof {
            assert(t@.shapes =~= seq![
                Some(Shape::Unit),
                Some(Shape::Nil),
                Some(Shape::Int),
                Some(Shape::String),
                Some(Shape::Error),
            ]);
            assert(t@.scopes =~= seq![Seq::<(Symbol, TypeRef)>::empty()]);
        }
        t
    }

    /// Pushes a fresh binding frame; the new frame starts a new batch.
    pub fn enter_scope(&mut self)
        requires
            table_wf(old(self)@),
        ensures
            table_wf(final(self)@),
            final(self)@.shapes == old(self)@.shapes,
            final(self)@.scopes == old(self)@.scopes.push(Seq::<(Symbol, TypeRef)>::empty()),
            final(self)@.batch_start == 0,
    {
        self.scopes.push(Vec::new());
        self.batch_start = 0;
        proof {
            assert(self@.scopes =~= old(self)@.scopes.push(Seq::<(Symbol, TypeRef)>::empty()));
        }
    }

    /// Pops the innermost frame, retiring every binding it introduced; the
    /// base scope is never popped. Lookups afterwards observe exactly the
    /// bindings that were visible before the matching `enter_scope`.
    pub fn exit_scope(&mut self)
        requires
            table_wf(old(self)@),
            old(self)@.scopes.len() >= 2,
        ensures
            table_wf(final(self)@),
            final(self)@.shapes == old(self)@.shapes,
            final(self)@.scopes == old(self)@.scopes.drop_last(),
            final(self)@.batch_start == final(self)@.scopes.last().len(),
    {
        let _popped = self.scopes.pop();
        let last = self.scopes.len() - 1;
        self.batch_start = self.scopes[last].len();
        proof {
            assert(self@.scopes =~= old(self)@.scopes.drop_last());
        }
    }

    /// Marks the start of a new declaration batch: duplicate detection in
    /// [`TypeTable::declare`] is relative to this point.
    pub fn begin_batch(&mut self)
        requires
            table_wf(old(self)@),
        ensures
            table_wf(final(self)@),
            final(self)@.shapes == old(self)@.shapes,
            final(self)@.scopes == old(self)@.scopes,
            final(self)@.batch_start == old(self)@.scopes.last().len(),
    {
        let last = self.scopes.len() - 1;
        self.batch_start = self.scopes[last].len();
    }

    /// Binds `name` to an existing handle in the innermost scope, without
    /// allocating. This is how a driver installs the built-in environment
    /// (for example its interned `int` onto [`int_ref`]).
    pub fn bind(&mut self, name: Symbol, target: TypeRef)
        requires
            table_wf(old(self)@),
            target.0 < old(self)@.shapes.len(),
        ensures
            table_wf(final(self)@),
            final(self)@.shapes == old(self)@.shapes,
            final(self)@.batch_start == old(self)@.batch_start,
            final(self)@.scopes == old(self)@.scopes.update(
                old(self)@.scopes.len() - 1,
                old(self)@.scopes.last().push((name, target)),
            ),
    {
        let last = self.scopes.len() - 1;
        self.scopes[last].push((name, target));
        proof {
            assert(self@.scopes =~= old(self)@.scopes.update(
                old(self)@.scopes.len() - 1,
                old(self)@.scopes.last().push((name, target)),
            ));
        }
    }

    /// Creates a placeholder bound to `name` in the innermost scope: the
    /// first phase of declaring a type. Re-declaring a name already declared
    /// in the current batch is refused with `DuplicateDeclaration` and leaves
    /// the table unchanged; re-declaring a name from an enclosing scope or an
    /// earlier batch shadows it, which is legal.
    pub fn declare(&mut self, name: Symbol) -> (r: Result<TypeRef, TypeError>)
        requires
            table_wf(old(self)@),
        ensures
            table_wf(final(self)@),
            r matches Ok(tr) ==> tr.0 == old(self)@.shapes.len(),
            ({
                let (v2, tr) = spec_declare(old(self)@, name);
                &&& final(self)@ == v2
                &&& r == match tr {
                    Some(t) => Ok::<TypeRef, TypeError>(t),
                    None => Err::<TypeRef, TypeError>(TypeError::DuplicateDeclaration(name)),
                }
            }),
    {
        let last = self.scopes.len() - 1;
        let frame_len = self.scopes[last].len();
        let mut i: usize = self.batch_start;
        while i < frame_len
            invariant
                table_wf(self@),
                self@ == old(self)@,
                last == self@.scopes.len() - 1,
                frame_len == self@.scopes.last().len(),
                self@.batch_start <= i <= frame_len,
                forall|j: int|
                    self@.batch_start <= j < i ==> (#[trigger] self@.scopes.last()[j]).0 != name,
            decreases frame_len - i,
        {
            let entry = self.scopes[last][i];
            if entry.0 == name {
                return Err(TypeError::DuplicateDeclaration(name));
            }
            i = i + 1;
        }
        proof {
            assert(!batch_dup(self@, name));
        }
        let tr = TypeRef(self.shapes.len());
        self.shapes.push(None);
        let last2 = self.scopes.len() - 1;
        self.scopes[last2].push((name, tr));
        proof {
            let (v2, otr) = spec_declare(old(self)@, name);
            assert(self@.shapes =~= v2.shapes);
            assert(self@.scopes =~= v2.scopes);
            assert(self@ =~= v2);
        }
        Ok(tr)
    }

    /// Appends a shape under a fresh handle, with no name bound to it: this
    /// is the identity-giving step for composite type literals.
    pub fn add_shape(&mut self, ty: Type) -> (r: TypeRef)
        requires
            table_wf(old(self)@),
            shape_wf(ty@, old(self)@.shapes.len()),
        ensures
            table_wf(final(self)@),
            r == TypeRef(old(self)@.shapes.len() as usize),
            final(self)@.shapes == old(self)@.shapes.push(Some(ty@)),
            final(self)@.scopes == old(self)@.scopes,
            final(self)@.batch_start == old(self)@.batch_start,
    {
        let tr = TypeRef(self.shapes.len());
        self.shapes.push(Some(ty));
        proof {
            assert(self@.shapes =~= old(self)@.shapes.push(Some(ty@)));
            assert forall|i: int| 0 <= i < self@.shapes.len() implies match #[trigger] self@
                .shapes[i] {
                Some(s) => shape_wf(s, self@.shapes.len()),
                None => true,
            } by {
                match self@.shapes[i] {
                    Some(s) => {
                        lemma_shape_wf_mono(s, old(self)@.shapes.len(), self@.shapes.len());
                    },
                    None => {},
                }
            }
        }
        tr
    }

    /// Fills a placeholder's shape, exactly once: filling a slot that is
    /// already filled is a programming-contract violation, excluded here
    /// rather than reported.
    pub fn assign_shape(&mut self, tr: TypeRef, ty: Type)
        requires
            table_wf(old(self)@),
            tr.0 < old(self)@.shapes.len(),
            old(self)@.shapes[tr.0 as int] is None,
            shape_wf(ty@, old(self)@.shapes.len()),
        ensures
            table_wf(final(self)@),
            final(self)@.shapes == old(self)@.shapes.update(tr.0 as int, Some(ty@)),
            final(self)@.scopes == old(self)@.scopes,
            final(self)@.batch_start == old(self)@.batch_start,
    {
        self.shapes[tr.0] = Some(ty);
        proof {
            assert(self@.shapes =~= old(self)@.shapes.update(tr.0 as int, Some(ty@)));
        }
    }

    /// Replaces a slot's shape with the `Error` sentinel. This is the one
    /// sanctioned overwrite: after an `IllegalCycle` is reported, the
    /// offending entry becomes `Error` so no garbage type reaches later
    /// checks and no later diagnostic cascades from the same root cause.
    pub(crate) fn poison(&mut self, tr: TypeRef)
        requires
            table_wf(old(self)@),
            5 <= tr.0 < old(self)@.shapes.len(),
        ensures
            table_wf(final(self)@),
            final(self)@.shapes == old(self)@.shapes.update(tr.0 as int, Some(Shape::Error)),
            final(self)@.scopes == old(self)@.scopes,
            final(self)@.batch_start == old(self)@.batch_start,
    {
        self.shapes[tr.0] = Some(Type::Error);
        proof {
            assert(self@.shapes =~= old(self)@.shapes.update(tr.0 as int, Some(Shape::Error)));
        }
    }

    /// Walks from the innermost scope outward and returns the nearest
    /// binding of `name`; fails with `UnknownType` if and only if no
    /// enclosing scope binds it.
    pub fn lookup(&self, name: Symbol) -> (r: Result<TypeRef, TypeError>)
        requires
            table_wf(self@),
        ensures
            r == match spec_lookup(self@.scopes, name) {
                Some(tr) => Ok::<TypeRef, TypeError>(tr),
                None => Err::<TypeRef, TypeError>(TypeError::UnknownType(name)),
            },
            r matches Ok(tr) ==> tr.0 < self@.shapes.len(),
    {
        let ghost scopes = self@.scopes;
        let mut si = self.scopes.len();
        proof {
            assert(scopes.subrange(0, scopes.len() as int) =~= scopes);
        }
        while si > 0
            invariant
                table_wf(self@),
                scopes == self@.scopes,
                si <= scopes.len(),
                spec_lookup(scopes, name) == spec_lookup(scopes.subrange(0, si as int), name),
            decreases si,
        {
            si = si - 1;
            let ghost frame = scopes[si as int];
            let mut fj = self.scopes[si].len();
            proof {
                assert(frame.subrange(0, frame.len() as int) =~= frame);
            }
            while fj > 0
                invariant
                    table_wf(self@),
                    scopes == self@.scopes,
                    si < scopes.len(),
                    frame == scopes[si as int],
                    fj <= frame.len(),
                    spec_lookup(scopes, name) == spec_lookup(
                        scopes.subrange(0, si + 1 as int),
                        name,
                    ),
                    frame_lookup(frame, name) == frame_lookup(
                        frame.subrange(0, fj as int),
                        name,
                    ),
                decreases fj,
            {
                fj = fj - 1;
                proof {
                    assert(frame.subrange(0, fj + 1 as int).last() == frame[fj as int]);
                    assert(frame.subrange(0, fj + 1 as int).drop_last() =~= frame.subrange(
                        0,
                        fj as int,
                    ));
                }
                let entry = self.scopes[si][fj];
                if entry.0 == name {
                    proof {
                        assert(frame_lookup(frame, name) == Some(entry.1));
                        assert(scopes.subrange(0, si + 1 as int).last() == frame);
                        assert(scopes.subrange(0, si + 1 as int).drop_last() =~= scopes.subrange(
                            0,
                            si as int,
                        ));
                        assert(spec_lookup(scopes.subrange(0, si + 1 as int), name) == Some(
                            entry.1,
                        ));
                    }
                    return Ok(entry.1);
                }
            }
            proof {
                assert(frame.subrange(0, 0) =~= Seq::<(Symbol, TypeRef)>::empty());
                assert(frame_lookup(frame, name) is None);
                assert(scopes.subrange(0, si + 1 as int).last() == frame);
                assert(scopes.subrange(0, si + 1 as int).drop_last() =~= scopes.subrange(
                    0,
                    si as int,
                ));
            }
        }
        proof {
            assert(scopes.subrange(0, 0) =~= Seq::<Seq<(Symbol, TypeRef)>>::empty());
        }
        Err(TypeError::UnknownType(name))
    }

    /// Follows the pure-alias chain from `tr` to the handle it denotes.
    /// An unfilled placeholder (or a handle outside the arena, or an alias
    /// cycle that the resolver was required to rule out) is fatal: the
    /// resolver must have completed before this is called.
    pub fn resolve_ref(&self, tr: TypeRef) -> (r: Result<TypeRef, TypeError>)
        requires
            table_wf(self@),
        ensures
            r == match spec_resolve(self@, tr) {
                Some(e) => Ok::<TypeRef, TypeError>(e),
                None => Err::<TypeRef, TypeError>(TypeError::UnresolvedNameInvariantViolation),
            },
    {
        let mut cur = tr;
        let mut fuel = self.shapes.len();
        loop
            invariant
                table_wf(self@),
                fuel <= self@.shapes.len(),
                chain_end(self@.shapes, cur, fuel as nat) == spec_resolve(self@, tr),
            decreases fuel,
        {
            if cur.0 >= self.shapes.len() {
                return Err(TypeError::UnresolvedNameInvariantViolation);
            }
            match &self.shapes[cur.0] {
                None => {
                    return Err(TypeError::UnresolvedNameInvariantViolation);
                },
                Some(Type::Alias(next)) => {
                    if fuel == 0 {
                        return Err(TypeError::UnresolvedNameInvariantViolation);
                    }
                    fuel = fuel - 1;
                    cur = *next;
                },
                Some(_) => {
                    return Ok(cur);
                },
            }
        }
    }

    /// How many slots the arena holds (built-ins, placeholders and filled
    /// shapes together).
    pub fn arena_len(&self) -> (n: usize)
        ensures
            n == self@.shapes.len(),
    {
        self.shapes.len()
    }

    /// A read-only view of one slot's stored shape.
    pub fn shape_of(&self, tr: TypeRef) -> (r: &Option<Type>)
        requires
            table_wf(self@),
            tr.0 < self@.shapes.len(),
        ensures
            match r {
                Some(ty) => self@.shapes[tr.0 as int] == Some(ty@),
                None => self@.shapes[tr.0 as int] is None,
            },
    {
        &self.shapes[tr.0]
    }

    /// Resolves a handle to the shape it denotes: the shape at the end of
    /// its pure-alias chain. The result is a pure function of the table, so
    /// repeated calls on one handle return the identical shape, with no
    /// re-computation drift.
    pub fn resolve(&self, tr: TypeRef) -> (r: Result<Type, TypeError>)
        requires
            table_wf(self@),
        ensures
            match spec_resolve(self@, tr) {
                Some(e) => r matches Ok(ty) && self@.shapes[e.0 as int] == Some(ty@),
                None => r == Err::<Type, TypeError>(
                    TypeError::UnresolvedNameInvariantViolation,
                ),
            },
    {
        let e = match self.resolve_ref(tr) {
            Ok(e) => e,
            Err(err) => {
                return Err(err);
            },
        };
        proof {
            lemma_chain_end_some(self@.shapes, tr, self@.shapes.len());
        }
        match &self.shapes[e.0] {
            Some(ty) => Ok(ty.clone()),
            None => {
                proof {
                    assert(false);
                }
                Err(TypeError::UnresolvedNameInvariantViolation)
            },
        }
    }
}

} // verus!
