//! The resolver: turns one maximal consecutive run of type declarations (a
//! "batch", whose members may reference each other and themselves) into fully
//! populated [`TypeTable`] entries, in three phases.
//!
//! 1. *Declare*: every name of the batch gets a placeholder handle, so
//!    forward references inside the batch resolve; a same-batch repeat is
//!    reported as `DuplicateDeclaration` and gets no placeholder.
//! 2. *Fill*: each declaration's right-hand expression is translated into a
//!    shape, in source order, and assigned to its placeholder exactly once.
//!    A name with no binding is reported as `UnknownType` and the offending
//!    node's type becomes the `Error` sentinel; a composite literal nested
//!    inside another gets its own fresh handle (nominal identity).
//! 3. *Cycle check*: a name whose pure-alias chain returns to its own handle
//!    with no record/array indirection is reported as `IllegalCycle` and its
//!    entry becomes `Error`; recursion through a record or array is legal,
//!    because the indirection terminates substitution.
//!
//! Batch membership and source order are exactly what the parser hands in;
//! nothing is reordered, so diagnostics and handle identities are
//! deterministic.

use crate::diag::{Diagnostic, Diagnostics, Span, TypeError};
use crate::table::{
    error_ref, spec_declare, spec_lookup, table_wf, TableView, TypeTable,
};
use crate::ty::{Shape, Symbol, Type, TypeRef};
use vstd::prelude::*;

verus! {

/// A type expression as the parser hands it in: a bare name reference, a
/// record literal, or an array literal.
pub enum TypeExpr {
    Name(Symbol),
    RecordLit(Vec<(Symbol, TypeExpr)>),
    ArrayLit(Box<TypeExpr>),
}

/// One declaration of a batch, `type name = expr`, with its source span.
pub struct Declaration {
    pub name: Symbol,
    pub expr: TypeExpr,
    pub span: Span,
}

/// Whether the field at position `i` repeats an earlier field's name.
pub open spec fn field_name_seen(flds: Seq<(Symbol, TypeRef)>, i: int) -> bool {
    exists|j: int| 0 <= j < i && (#[trigger] flds[j]).0 == flds[i].0
}

/// The translated fields with later repeats of a name dropped: the first
/// occurrence of each field name wins.
pub open spec fn dedup_fields(flds: Seq<(Symbol, TypeRef)>, i: int) -> Seq<(Symbol, TypeRef)>
    decreases flds.len() - i,
{
    if i < 0 || i >= flds.len() {
        Seq::<(Symbol, TypeRef)>::empty()
    } else if field_name_seen(flds, i) {
        dedup_fields(flds, i + 1)
    } else {
        seq![flds[i]] + dedup_fields(flds, i + 1)
    }
}

/// One `DuplicateDeclaration` report for each dropped repeated field, in
/// field order.
pub open spec fn dup_field_diags(flds: Seq<(Symbol, TypeRef)>, i: int, span: Span) -> Seq<
    Diagnostic,
>
    decreases flds.len() - i,
{
    if i < 0 || i >= flds.len() {
        Seq::<Diagnostic>::empty()
    } else if field_name_seen(flds, i) {
        seq![
            Diagnostic { error: TypeError::DuplicateDeclaration(flds[i].0), span },
        ] + dup_field_diags(flds, i + 1, span)
    } else {
        dup_field_diags(flds, i + 1, span)
    }
}

/// Deduplicated fields have pairwise distinct names, and keep their handles
/// below any bound the originals respect.
pub proof fn lemma_dedup_fields_wf(flds: Seq<(Symbol, TypeRef)>, i: int, n: nat)
    requires
        forall|k: int| 0 <= k < flds.len() ==> (#[trigger] flds[k]).1.0 < n,
    ensures
        ({
            let out = dedup_fields(flds, i);
            &&& forall|p: int| 0 <= p < out.len() ==> (#[trigger] out[p]).1.0 < n
            &&& forall|p: int, q: int| 0 <= p < q < out.len() ==> (#[trigger] out[p]).0 != (
            #[trigger] out[q]).0
            &&& forall|p: int|
                0 <= p < out.len() ==> exists|k: int|
                    i <= k < flds.len() && #[trigger] out[p] == flds[k] && !field_name_seen(
                        flds,
                        k,
                    )
        }),
    decreases flds.len() - i,
{
    if i < 0 || i >= flds.len() {
    } else {
        lemma_dedup_fields_wf(flds, i + 1, n);
        let out = dedup_fields(flds, i);
        let rest = dedup_fields(flds, i + 1);
        if !field_name_seen(flds, i) {
            assert forall|p: int| 0 <= p < out.len() implies exists|k: int|
                i <= k < flds.len() && #[trigger] out[p] == flds[k] && !field_name_seen(
                    flds,
                    k,
                ) by {
                if p == 0 {
                    assert(out[0] == flds[i] && !field_name_seen(flds, i));
                } else {
                    let k = choose|k: int|
                        i + 1 <= k < flds.len() && #[trigger] rest[p - 1] == flds[k]
                            && !field_name_seen(flds, k);
                    assert(out[p] == flds[k] && !field_name_seen(flds, k));
                }
            }
            assert forall|p: int, q: int| 0 <= p < q < out.len() implies (#[trigger] out[p]).0
                != (#[trigger] out[q]).0 by {
                if p == 0 {
                    let k = choose|k: int|
                        i + 1 <= k < flds.len() && #[trigger] rest[q - 1] == flds[k]
                            && !field_name_seen(flds, k);
                    if flds[k].0 == flds[i].0 {
                        assert(field_name_seen(flds, k));
                    }
                }
            }
        }
    }
}

/// What translating an expression to a field/element handle does to the shape
/// arena and the diagnostics, and the handle it yields: a known name is its
/// binding, an unknown name is reported and becomes the `Error` handle, and a
/// composite literal becomes a fresh handle holding its translated shape.
pub open spec fn spec_translate_ref(
    shapes: Seq<Option<Shape>>,
    scopes: Seq<Seq<(Symbol, TypeRef)>>,
    e: TypeExpr,
    span: Span,
) -> (Seq<Option<Shape>>, Seq<Diagnostic>, TypeRef)
    decreases e, 1int, 0int,
{
    match e {
        TypeExpr::Name(s) => match spec_lookup(scopes, s) {
            Some(tr) => (shapes, Seq::<Diagnostic>::empty(), tr),
            None => (
                shapes,
                seq![Diagnostic { error: TypeError::UnknownType(s), span }],
                TypeRef(4),
            ),
        },
        _ => {
            let (shapes1, diags1, shape) = spec_translate_shape(shapes, scopes, e, span);
            (shapes1.push(Some(shape)), diags1, TypeRef(shapes1.len() as usize))
        },
    }
}

/// What translating a declaration's right-hand expression to a shape does: a
/// known name becomes a pure alias of its binding, an unknown name is
/// reported and becomes the `Error` shape, an array literal translates its
/// element, and a record literal translates its fields in order and drops
/// (reporting) later repeats of a field name.
pub open spec fn spec_translate_shape(
    shapes: Seq<Option<Shape>>,
    scopes: Seq<Seq<(Symbol, TypeRef)>>,
    e: TypeExpr,
    span: Span,
) -> (Seq<Option<Shape>>, Seq<Diagnostic>, Shape)
    decreases e, 0int, 0int,
{
    match e {
        TypeExpr::Name(s) => match spec_lookup(scopes, s) {
            Some(tr) => (shapes, Seq::<Diagnostic>::empty(), Shape::Alias(tr)),
            None => (
                shapes,
                seq![Diagnostic { error: TypeError::UnknownType(s), span }],
                Shape::Error,
            ),
        },
        TypeExpr::ArrayLit(elem) => {
            let (shapes1, diags1, tr) = spec_translate_ref(shapes, scopes, *elem, span);
            (shapes1, diags1, Shape::Array(tr))
        },
        TypeExpr::RecordLit(fields) => {
            let (shapes1, diags1, flds) = spec_translate_fields(shapes, scopes, fields@, span);
            (
                shapes1,
                diags1 + dup_field_diags(flds, 0, span),
                Shape::Record(dedup_fields(flds, 0)),
            )
        },
    }
}

/// Field-by-field translation of a record literal, in source order.
pub open spec fn spec_translate_fields(
    shapes: Seq<Option<Shape>>,
    scopes: Seq<Seq<(Symbol, TypeRef)>>,
    fields: Seq<(Symbol, TypeExpr)>,
    span: Span,
) -> (Seq<Option<Shape>>, Seq<Diagnostic>, Seq<(Symbol, TypeRef)>)
    decreases fields, 2int, 0int,
{
    if fields.len() == 0 {
        (shapes, Seq::<Diagnostic>::empty(), Seq::<(Symbol, TypeRef)>::empty())
    } else {
        let (shapes1, d1, tr) = spec_translate_ref(shapes, scopes, fields[0].1, span);
        let (shapes2, d2, rest) = spec_translate_fields(
            shapes1,
            scopes,
            fields.subrange(1, fields.len() as int),
            span,
        );
        (shapes2, d1 + d2, seq![(fields[0].0, tr)] + rest)
    }
}

/// Translates an expression to the handle it denotes, reporting unknown
/// names and allocating fresh handles for composite literals, exactly as
/// [`spec_translate_ref`] states. Existing arena slots are untouched.
fn translate_ref(table: &mut TypeTable, diags: &mut Diagnostics, e: &TypeExpr, span: Span) -> (r:
    TypeRef)
    requires
        table_wf(old(table)@),
    ensures
        table_wf(final(table)@),
        final(table)@.scopes == old(table)@.scopes,
        final(table)@.batch_start == old(table)@.batch_start,
        ({
            let (shapes2, d2, tr) = spec_translate_ref(
                old(table)@.shapes,
                old(table)@.scopes,
                *e,
                span,
            );
            &&& final(table)@.shapes == shapes2
            &&& final(diags)@ == old(diags)@ + d2
            &&& r == tr
        }),
        old(table)@.shapes.len() <= final(table)@.shapes.len(),
        forall|k: int|
            0 <= k < old(table)@.shapes.len() ==> final(table)@.shapes[k] == old(table)@.shapes[k],
        r.0 < final(table)@.shapes.len(),
    decreases *e, 1int, 0int,
{
    match e {
        TypeExpr::Name(s) => {
            match table.lookup(*s) {
                Ok(tr) => {
                    proof {
                        assert(final(diags)@ =~= old(diags)@ + Seq::<Diagnostic>::empty());
                    }
                    tr
                },
                Err(_) => {
                    diags.report(TypeError::UnknownType(*s), span);
                    proof {
                        assert(diags@ =~= old(diags)@ + seq![
                            Diagnostic { error: TypeError::UnknownType(*s), span },
                        ]);
                    }
                    error_ref()
                },
            }
        },
        _ => {
            let shape = translate_shape(table, diags, e, span);
            table.add_shape(shape)
        },
    }
}

/// Translates a declaration's right-hand expression to the shape that will
/// be assigned to its placeholder, exactly as [`spec_translate_shape`]
/// states. Existing arena slots are untouched, and the returned shape is
/// well formed for the grown arena.
fn translate_shape(table: &mut TypeTable, diags: &mut Diagnostics, e: &TypeExpr, span: Span) -> (r:
    Type)
    requires
        table_wf(old(table)@),
    ensures
        table_wf(final(table)@),
        final(table)@.scopes == old(table)@.scopes,
        final(table)@.batch_start == old(table)@.batch_start,
        ({
            let (shapes2, d2, shape) = spec_translate_shape(
                old(table)@.shapes,
                old(table)@.scopes,
                *e,
                span,
            );
            &&& final(table)@.shapes == shapes2
            &&& final(diags)@ == old(diags)@ + d2
            &&& r@ == shape
        }),
        old(table)@.shapes.len() <= final(table)@.shapes.len(),
        forall|k: int|
            0 <= k < old(table)@.shapes.len() ==> final(table)@.shapes[k] == old(table)@.shapes[k],
        crate::table::shape_wf(r@, final(table)@.shapes.len()),
    decreases *e, 0int, 0int,
{
    match e {
        TypeExpr::Name(s) => {
            match table.lookup(*s) {
                Ok(tr) => {
                    proof {
                        assert(final(diags)@ =~= old(diags)@ + Seq::<Diagnostic>::empty());
                    }
                    Type::Alias(tr)
                },
                Err(_) => {
                    diags.report(TypeError::UnknownType(*s), span);
                    proof {
                        assert(diags@ =~= old(diags)@ + seq![
                            Diagnostic { error: TypeError::UnknownType(*s), span },
                        ]);
                    }
                    Type::Error
                },
            }
        },
        TypeExpr::ArrayLit(elem) => {
            let tr = translate_ref(table, diags, elem, span);
            Type::Array(tr)
        },
        TypeExpr::RecordLit(fields) => {
            let mut raw: Vec<(Symbol, TypeRef)> = Vec::new();
            translate_fields(table, diags, fields, 0, &mut raw, span);
            proof {
                assert(fields@.subrange(0, fields@.len() as int) =~= fields@);
                assert(raw@ =~= Seq::<(Symbol, TypeRef)>::empty() + raw@);
            }
            let out = dedup_record_fields(&raw, diags, span);
            proof {
                lemma_dedup_fields_wf(raw@, 0, final(table)@.shapes.len());
            }
            Type::Record(out)
        },
    }
}

/// Translates the fields of a record literal from position `i` on, appending
/// the translated (name, handle) pairs to `out` in source order.
fn translate_fields(
    table: &mut TypeTable,
    diags: &mut Diagnostics,
    fields: &Vec<(Symbol, TypeExpr)>,
    i: usize,
    out: &mut Vec<(Symbol, TypeRef)>,
    span: Span,
)
    requires
        table_wf(old(table)@),
        i <= fields@.len(),
        forall|p: int|
            0 <= p < old(out)@.len() ==> (#[trigger] old(out)@[p]).1.0 < old(table)@.shapes.len(),
    ensures
        table_wf(final(table)@),
        final(table)@.scopes == old(table)@.scopes,
        final(table)@.batch_start == old(table)@.batch_start,
        ({
            let (shapes2, d2, flds) = spec_translate_fields(
                old(table)@.shapes,
                old(table)@.scopes,
                fields@.subrange(i as int, fields@.len() as int),
                span,
            );
            &&& final(table)@.shapes == shapes2
            &&& final(diags)@ == old(diags)@ + d2
            &&& final(out)@ == old(out)@ + flds
        }),
        old(table)@.shapes.len() <= final(table)@.shapes.len(),
        forall|k: int|
            0 <= k < old(table)@.shapes.len() ==> final(table)@.shapes[k] == old(table)@.shapes[k],
        forall|p: int|
            0 <= p < final(out)@.len() ==> (#[trigger] final(out)@[p]).1.0 < final(table)@.shapes.len(),
    decreases *fields, 2int, fields@.len() - i,
{
    if i >= fields.len() {
        proof {
            assert(fields@.subrange(i as int, fields@.len() as int) =~= Seq::<
                (Symbol, TypeExpr),
            >::empty());
            assert(final(diags)@ =~= old(diags)@ + Seq::<Diagnostic>::empty());
            assert(final(out)@ =~= old(out)@ + Seq::<(Symbol, TypeRef)>::empty());
        }
        return ;
    }
    let name = fields[i].0;
    let tr = translate_ref(table, diags, &fields[i].1, span);
    out.push((name, tr));
    let ghost mid_table = table@;
    translate_fields(table, diags, fields, i + 1, out, span);
    proof {
        let whole = fields@.subrange(i as int, fields@.len() as int);
        let rest = fields@.subrange(i + 1 as int, fields@.len() as int);
        assert(whole[0] == fields@[i as int]);
        assert(whole.subrange(1, whole.len() as int) =~= rest);
        let (shapes1, d1, tr1) = spec_translate_ref(
            old(table)@.shapes,
            old(table)@.scopes,
            fields@[i as int].1,
            span,
        );
        let (shapes2, d2, flds2) = spec_translate_fields(mid_table.shapes, old(table)@.scopes, rest, span);
        let (shapesw, dw, fldsw) = spec_translate_fields(
            old(table)@.shapes,
            old(table)@.scopes,
            whole,
            span,
        );
        assert(shapesw == shapes2);
        assert(dw =~= d1 + d2);
        assert(fldsw =~= seq![(fields@[i as int].0, tr1)] + flds2);
        assert(final(diags)@ =~= old(diags)@ + (d1 + d2));
        assert(final(out)@ =~= old(out)@ + (seq![(fields@[i as int].0, tr1)] + flds2));
    }
}

/// Drops later repeats of a field name from translated record fields,
/// reporting each dropped repeat as a `DuplicateDeclaration`, so that the
/// resulting record's field names are unique.
fn dedup_record_fields(flds: &Vec<(Symbol, TypeRef)>, diags: &mut Diagnostics, span: Span) -> (out:
    Vec<(Symbol, TypeRef)>)
    ensures
        out@ == dedup_fields(flds@, 0),
        final(diags)@ == old(diags)@ + dup_field_diags(flds@, 0, span),
{
    let mut out: Vec<(Symbol, TypeRef)> = Vec::new();
    let mut i: usize = 0;
    while i < flds.len()
        invariant
            i <= flds@.len(),
            dedup_fields(flds@, 0) == out@ + dedup_fields(flds@, i as int),
            dup_field_diags(flds@, 0, span) == diags@.subrange(
                old(diags)@.len() as int,
                diags@.len() as int,
            ) + dup_field_diags(flds@, i as int, span),
            old(diags)@.len() <= diags@.len(),
            diags@.subrange(0, old(diags)@.len() as int) == old(diags)@,
        decreases flds@.len() - i,
    {
        let ghost prev_diags = diags@;
        let mut seen = false;
        let mut j: usize = 0;
        while j < i
            invariant
                j <= i < flds@.len(),
                seen <==> exists|q: int|
                    0 <= q < j && (#[trigger] flds@[q]).0 == flds@[i as int].0,
            decreases i - j,
        {
            if flds[j].0 == flds[i].0 {
                seen = true;
            }
            j = j + 1;
        }
        proof {
            assert(seen == field_name_seen(flds@, i as int));
        }
        if seen {
            diags.report(TypeError::DuplicateDeclaration(flds[i].0), span);
            proof {
                assert(diags@.subrange(old(diags)@.len() as int, diags@.len() as int)
                    =~= prev_diags.subrange(old(diags)@.len() as int, prev_diags.len() as int)
                    + seq![
                    Diagnostic { error: TypeError::DuplicateDeclaration(flds@[i as int].0), span },
                ]);
                assert(diags@.subrange(0, old(diags)@.len() as int) =~= old(diags)@);
                assert(dup_field_diags(flds@, 0, span) =~= diags@.subrange(
                    old(diags)@.len() as int,
                    diags@.len() as int,
                ) + dup_field_diags(flds@, i + 1 as int, span));
            }
        } else {
            out.push(flds[i]);
            proof {
                assert(dedup_fields(flds@, 0) =~= out@ + dedup_fields(flds@, i + 1 as int));
            }
        }
        i = i + 1;
    }
    proof {
        assert(dedup_fields(flds@, i as int) =~= Seq::<(Symbol, TypeRef)>::empty());
        assert(dup_field_diags(flds@, i as int, span) =~= Seq::<Diagnostic>::empty());
        assert(out@ =~= dedup_fields(flds@, 0));
        assert(diags@ =~= old(diags)@ + dup_field_diags(flds@, 0, span));
    }
    out
}

/// Phase 1 over a whole batch: declare every name in source order. A
/// same-batch repeat is reported, and its position carries no placeholder.
pub open spec fn spec_declare_all(v: TableView, batch: Seq<Declaration>) -> (
    TableView,
    Seq<Diagnostic>,
    Seq<Option<TypeRef>>,
)
    decreases batch.len(),
{
    if batch.len() == 0 {
        (v, Seq::<Diagnostic>::empty(), Seq::<Option<TypeRef>>::empty())
    } else {
        let (v1, otr) = spec_declare(v, batch[0].name);
        let d0: Seq<Diagnostic> = match otr {
            Some(_) => Seq::<Diagnostic>::empty(),
            None => seq![
                Diagnostic {
                    error: TypeError::DuplicateDeclaration(batch[0].name),
                    span: batch[0].span,
                },
            ],
        };
        let (v2, ds, refs) = spec_declare_all(v1, batch.subrange(1, batch.len() as int));
        (v2, d0 + ds, seq![otr] + refs)
    }
}

/// Translating an expression only appends to the arena: every existing slot
/// keeps its shape.
pub proof fn lemma_translate_ref_extends(
    shapes: Seq<Option<Shape>>,
    scopes: Seq<Seq<(Symbol, TypeRef)>>,
    e: TypeExpr,
    span: Span,
)
    ensures
        ({
            let (s2, d2, tr) = spec_translate_ref(shapes, scopes, e, span);
            &&& shapes.len() <= s2.len()
            &&& forall|k: int| 0 <= k < shapes.len() ==> s2[k] == shapes[k]
        }),
    decreases e, 1int, 0int,
{
    match e {
        TypeExpr::Name(_) => {},
        _ => {
            lemma_translate_shape_extends(shapes, scopes, e, span);
        },
    }
}

/// Translating an expression to a shape only appends to the arena.
pub proof fn lemma_translate_shape_extends(
    shapes: Seq<Option<Shape>>,
    scopes: Seq<Seq<(Symbol, TypeRef)>>,
    e: TypeExpr,
    span: Span,
)
    ensures
        ({
            let (s2, d2, shape) = spec_translate_shape(shapes, scopes, e, span);
            &&& shapes.len() <= s2.len()
            &&& forall|k: int| 0 <= k < shapes.len() ==> s2[k] == shapes[k]
        }),
    decreases e, 0int, 0int,
{
    match e {
        TypeExpr::Name(_) => {},
        TypeExpr::ArrayLit(elem) => {
            lemma_translate_ref_extends(shapes, scopes, *elem, span);
        },
        TypeExpr::RecordLit(fields) => {
            lemma_translate_fields_extends(shapes, scopes, fields@, span);
        },
    }
}

/// Translating a record's fields only appends to the arena.
pub proof fn lemma_translate_fields_extends(
    shapes: Seq<Option<Shape>>,
    scopes: Seq<Seq<(Symbol, TypeRef)>>,
    fields: Seq<(Symbol, TypeExpr)>,
    span: Span,
)
    ensures
        ({
            let (s2, d2, flds) = spec_translate_fields(shapes, scopes, fields, span);
            &&& shapes.len() <= s2.len()
            &&& forall|k: int| 0 <= k < shapes.len() ==> s2[k] == shapes[k]
        }),
    decreases fields, 2int, 0int,
{
    if fields.len() > 0 {
        lemma_translate_ref_extends(shapes, scopes, fields[0].1, span);
        let (s1, d1, tr) = spec_translate_ref(shapes, scopes, fields[0].1, span);
        lemma_translate_fields_extends(
            s1,
            scopes,
            fields.subrange(1, fields.len() as int),
            span,
        );
    }
}

/// Phase 2 never empties a slot: a shape once present stays present (its own
/// placeholder may be the one being filled, which also leaves it present).
pub proof fn lemma_fill_all_preserves_some(
    v: TableView,
    batch: Seq<Declaration>,
    refs: Seq<Option<TypeRef>>,
    idx: int,
)
    requires
        0 <= idx < v.shapes.len(),
        v.shapes[idx] is Some,
        forall|p: int|
            0 <= p < refs.len() ==> match #[trigger] refs[p] {
                Some(tr) => tr.0 < v.shapes.len(),
                None => true,
            },
    ensures
        ({
            let (v2, ds) = spec_fill_all(v, batch, refs);
            &&& idx < v2.shapes.len()
            &&& v2.shapes[idx] is Some
        }),
    decreases batch.len(),
{
    if batch.len() > 0 && refs.len() > 0 {
        let stepped: TableView = match refs[0] {
            Some(tr) => {
                let (shapes1, d1, shape) = spec_translate_shape(
                    v.shapes,
                    v.scopes,
                    batch[0].expr,
                    batch[0].span,
                );
                TableView {
                    shapes: shapes1.update(tr.0 as int, Some(shape)),
                    scopes: v.scopes,
                    batch_start: v.batch_start,
                }
            },
            None => v,
        };
        match refs[0] {
            Some(tr) => {
                lemma_translate_shape_extends(v.shapes, v.scopes, batch[0].expr, batch[0].span);
                let (shapes1, d1, shape) = spec_translate_shape(
                    v.shapes,
                    v.scopes,
                    batch[0].expr,
                    batch[0].span,
                );
                assert(shapes1[idx] is Some);
                assert(stepped.shapes[idx] is Some);
            },
            None => {},
        }
        let rest_r = refs.subrange(1, refs.len() as int);
        assert forall|p: int|
            0 <= p < rest_r.len() implies match #[trigger] rest_r[p] {
            Some(tr) => tr.0 < stepped.shapes.len(),
            None => true,
        } by {
            assert(rest_r[p] == refs[p + 1]);
        }
        lemma_fill_all_preserves_some(
            stepped,
            batch.subrange(1, batch.len() as int),
            rest_r,
            idx,
        );
    }
}

/// Phase 2 fills every placeholder phase 1 handed it: afterwards each
/// declared handle's slot holds a shape.
pub proof fn lemma_fill_all_fills(v: TableView, batch: Seq<Declaration>, refs: Seq<Option<TypeRef>>)
    requires
        refs.len() == batch.len(),
        forall|p: int|
            0 <= p < refs.len() ==> match #[trigger] refs[p] {
                Some(tr) => tr.0 < v.shapes.len(),
                None => true,
            },
    ensures
        ({
            let (v2, ds) = spec_fill_all(v, batch, refs);
            &&& v.shapes.len() <= v2.shapes.len()
            &&& forall|p: int|
                0 <= p < refs.len() ==> match #[trigger] refs[p] {
                    Some(tr) => v2.shapes[tr.0 as int] is Some,
                    None => true,
                }
        }),
    decreases batch.len(),
{
    if batch.len() > 0 {
        let rest_b = batch.subrange(1, batch.len() as int);
        let rest_r = refs.subrange(1, refs.len() as int);
        let stepped: TableView = match refs[0] {
            Some(tr) => {
                let (shapes1, d1, shape) = spec_translate_shape(
                    v.shapes,
                    v.scopes,
                    batch[0].expr,
                    batch[0].span,
                );
                TableView {
                    shapes: shapes1.update(tr.0 as int, Some(shape)),
                    scopes: v.scopes,
                    batch_start: v.batch_start,
                }
            },
            None => v,
        };
        match refs[0] {
            Some(tr) => {
                lemma_translate_shape_extends(v.shapes, v.scopes, batch[0].expr, batch[0].span);
            },
            None => {},
        }
        assert(v.shapes.len() <= stepped.shapes.len());
        assert forall|p: int|
            0 <= p < rest_r.len() implies match #[trigger] rest_r[p] {
            Some(tr) => tr.0 < stepped.shapes.len(),
            None => true,
        } by {
            assert(rest_r[p] == refs[p + 1]);
        }
        lemma_fill_all_fills(stepped, rest_b, rest_r);
        let (v2, ds) = spec_fill_all(v, batch, refs);
        assert forall|p: int|
            0 <= p < refs.len() implies match #[trigger] refs[p] {
            Some(tr) => v2.shapes[tr.0 as int] is Some,
            None => true,
        } by {
            match refs[p] {
                Some(tr) => {
                    if p == 0 {
                        assert(stepped.shapes[tr.0 as int] is Some);
                        lemma_fill_all_preserves_some(stepped, rest_b, rest_r, tr.0 as int);
                    } else {
                        assert(refs[p] == rest_r[p - 1]);
                    }
                },
                None => {},
            }
        }
    }
}

/// Phase 3 never empties a slot either: it only replaces shapes by `Error`.
pub proof fn lemma_poison_all_preserves_some(
    shapes: Seq<Option<Shape>>,
    offs: Seq<(Symbol, TypeRef, Span)>,
    i: int,
    idx: int,
)
    requires
        0 <= idx < shapes.len(),
        shapes[idx] is Some,
        forall|p: int| i <= p < offs.len() ==> (#[trigger] offs[p]).1.0 < shapes.len(),
    ensures
        ({
            let s2 = poison_all(shapes, offs, i);
            &&& idx < s2.len()
            &&& s2[idx] is Some
        }),
    decreases offs.len() - i,
{
    if 0 <= i < offs.len() {
        lemma_poison_all_preserves_some(
            shapes.update(offs[i].1.0 as int, Some(Shape::Error)),
            offs,
            i + 1,
            idx,
        );
    }
}

/// Every offender's handle came from `refs`, so it respects the same bound.
pub proof fn lemma_offenders_bounds(
    shapes: Seq<Option<Shape>>,
    batch: Seq<Declaration>,
    refs: Seq<Option<TypeRef>>,
    i: int,
    n: nat,
)
    requires
        forall|p: int|
            0 <= p < refs.len() ==> match #[trigger] refs[p] {
                Some(tr) => tr.0 < n,
                None => true,
            },
    ensures
        forall|p: int|
            0 <= p < spec_offenders(shapes, batch, refs, i).len() ==> (#[trigger] spec_offenders(
                shapes,
                batch,
                refs,
                i,
            )[p]).1.0 < n,
    decreases batch.len() - i,
{
    if 0 <= i < batch.len() && i < refs.len() {
        lemma_offenders_bounds(shapes, batch, refs, i + 1, n);
        let rest = spec_offenders(shapes, batch, refs, i + 1);
        let whole = spec_offenders(shapes, batch, refs, i);
        assert forall|p: int| 0 <= p < whole.len() implies (#[trigger] whole[p]).1.0 < n by {
            match refs[i] {
                Some(tr) => {
                    if self_cycle(shapes, tr) {
                        if p > 0 {
                            assert(whole[p] == rest[p - 1]);
                        }
                    }
                },
                None => {},
            }
        }
    }
}

/// The resolver guarantees full resolution: after the three phases of a
/// batch, every placeholder that phase 1 created has exactly one shape
/// assigned, so no unfilled entry can ever reach the unifier through a name
/// this batch declared. (The arena bound only states that handles fit the
/// machine, which every table built from a real arena satisfies.)
pub proof fn lemma_resolve_batch_fills_every_placeholder(v0: TableView, batch: Seq<Declaration>)
    requires
        v0.shapes.len() + batch.len() <= usize::MAX,
    ensures
        ({
            let (v1, d1, refs) = spec_declare_all(v0, batch);
            let (v2, d2) = spec_fill_all(v1, batch, refs);
            let (v3, d3) = spec_cycle_all(v2, batch, refs);
            &&& refs.len() == batch.len()
            &&& forall|p: int|
                0 <= p < refs.len() ==> match #[trigger] refs[p] {
                    Some(tr) => v3.shapes[tr.0 as int] is Some,
                    None => true,
                }
        }),
{
    lemma_declare_all_bounds(v0, batch);
    let (v1, d1, refs) = spec_declare_all(v0, batch);
    lemma_fill_all_fills(v1, batch, refs);
    let (v2, d2) = spec_fill_all(v1, batch, refs);
    let offs = spec_offenders(v2.shapes, batch, refs, 0);
    lemma_offenders_bounds(v2.shapes, batch, refs, 0, v2.shapes.len());
    assert forall|p: int|
        0 <= p < refs.len() implies match #[trigger] refs[p] {
        Some(tr) => poison_all(v2.shapes, offs, 0)[tr.0 as int] is Some,
        None => true,
    } by {
        match refs[p] {
            Some(tr) => {
                lemma_poison_all_preserves_some(v2.shapes, offs, 0, tr.0 as int);
            },
            None => {},
        }
    }
}

/// Phase 1 hands back one entry per declaration, each placeholder inside the
/// grown arena.
pub proof fn lemma_declare_all_bounds(v: TableView, batch: Seq<Declaration>)
    requires
        v.shapes.len() + batch.len() <= usize::MAX,
    ensures
        ({
            let (v1, ds, refs) = spec_declare_all(v, batch);
            &&& refs.len() == batch.len()
            &&& v.shapes.len() <= v1.shapes.len() <= v.shapes.len() + batch.len()
            &&& forall|p: int|
                0 <= p < refs.len() ==> match #[trigger] refs[p] {
                    Some(tr) => tr.0 < v1.shapes.len(),
                    None => true,
                }
        }),
    decreases batch.len(),
{
    if batch.len() > 0 {
        let (vmid, otr) = spec_declare(v, batch[0].name);
        let rest = batch.subrange(1, batch.len() as int);
        lemma_declare_all_bounds(vmid, rest);
        let (v1, ds1, refs1) = spec_declare_all(vmid, rest);
        let (vall, dall, refs) = spec_declare_all(v, batch);
        assert(refs == seq![otr] + refs1);
        assert forall|p: int|
            0 <= p < refs.len() implies match #[trigger] refs[p] {
            Some(tr) => tr.0 < vall.shapes.len(),
            None => true,
        } by {
            if p == 0 {
                match otr {
                    Some(tr) => {
                        assert(tr.0 == v.shapes.len());
                        assert(vmid.shapes.len() == v.shapes.len() + 1);
                    },
                    None => {},
                }
            } else {
                assert(refs[p] == refs1[p - 1]);
            }
        }
    }
}

/// Phase 1, executed: declares every name of `batch` from position `i` on,
/// reporting same-batch repeats, and appends to `refs` one entry per
/// position: the fresh placeholder handle, or `None` for a refused repeat.
/// The placeholders are pairwise distinct fresh handles onto unfilled slots.
fn declare_all(
    table: &mut TypeTable,
    diags: &mut Diagnostics,
    batch: &Vec<Declaration>,
    i: usize,
    refs: &mut Vec<Option<TypeRef>>,
)
    requires
        table_wf(old(table)@),
        i <= batch@.len(),
    ensures
        table_wf(final(table)@),
        ({
            let (v2, ds, refs2) = spec_declare_all(
                old(table)@,
                batch@.subrange(i as int, batch@.len() as int),
            );
            &&& final(table)@ == v2
            &&& final(diags)@ == old(diags)@ + ds
            &&& final(refs)@ == old(refs)@ + refs2
        }),
        final(refs)@.len() == old(refs)@.len() + batch@.len() - i,
        old(table)@.shapes.len() <= final(table)@.shapes.len(),
        forall|k: int|
            0 <= k < old(table)@.shapes.len() ==> final(table)@.shapes[k] == old(table)@.shapes[k],
        final(table)@.scopes.len() == old(table)@.scopes.len(),
        final(table)@.batch_start == old(table)@.batch_start,
        forall|p: int|
            old(refs)@.len() <= p < final(refs)@.len() ==> match #[trigger] final(refs)@[p] {
                Some(tr) => old(table)@.shapes.len() <= tr.0 < final(table)@.shapes.len()
                    && final(table)@.shapes[tr.0 as int] is None,
                None => true,
            },
        forall|p: int, q: int|
            old(refs)@.len() <= p < q < final(refs)@.len() && final(refs)@[p] is Some && final(refs)@[q] is Some ==> (#[trigger] final(refs)@[p]).unwrap() != (#[trigger] final(refs)@[q]).unwrap(),
    decreases batch@.len() - i,
{
    if i >= batch.len() {
        proof {
            assert(batch@.subrange(i as int, batch@.len() as int) =~= Seq::<
                Declaration,
            >::empty());
            assert(final(diags)@ =~= old(diags)@ + Seq::<Diagnostic>::empty());
            assert(final(refs)@ =~= old(refs)@ + Seq::<Option<TypeRef>>::empty());
        }
        return ;
    }
    let name = batch[i].name;
    let span = batch[i].span;
    match table.declare(name) {
        Ok(tr) => {
            refs.push(Some(tr));
        },
        Err(_) => {
            diags.report(TypeError::DuplicateDeclaration(name), span);
            refs.push(None);
        },
    }
    let ghost mid_table = table@;
    declare_all(table, diags, batch, i + 1, refs);
    proof {
        let whole = batch@.subrange(i as int, batch@.len() as int);
        let rest = batch@.subrange(i + 1 as int, batch@.len() as int);
        assert(whole[0] == batch@[i as int]);
        assert(whole.subrange(1, whole.len() as int) =~= rest);
        let (vmid, otr) = spec_declare(old(table)@, batch@[i as int].name);
        let d0: Seq<Diagnostic> = match otr {
            Some(_) => Seq::<Diagnostic>::empty(),
            None => seq![
                Diagnostic {
                    error: TypeError::DuplicateDeclaration(batch@[i as int].name),
                    span: batch@[i as int].span,
                },
            ],
        };
        assert(mid_table == vmid);
        let (v2, ds, refs2) = spec_declare_all(vmid, rest);
        assert(final(diags)@ =~= old(diags)@ + (d0 + ds));
        assert(final(refs)@ =~= old(refs)@ + (seq![otr] + refs2));
    }
}

/// Phase 2 over a whole batch: translate each right-hand expression in
/// source order and fill its placeholder; positions refused in phase 1 are
/// skipped.
pub open spec fn spec_fill_all(
    v: TableView,
    batch: Seq<Declaration>,
    refs: Seq<Option<TypeRef>>,
) -> (TableView, Seq<Diagnostic>)
    decreases batch.len(),
{
    if batch.len() == 0 || refs.len() == 0 {
        (v, Seq::<Diagnostic>::empty())
    } else {
        let stepped: (TableView, Seq<Diagnostic>) = match refs[0] {
            Some(tr) => {
                let (shapes1, d1, shape) = spec_translate_shape(
                    v.shapes,
                    v.scopes,
                    batch[0].expr,
                    batch[0].span,
                );
                (
                    TableView {
                        shapes: shapes1.update(tr.0 as int, Some(shape)),
                        scopes: v.scopes,
                        batch_start: v.batch_start,
                    },
                    d1,
                )
            },
            None => (v, Seq::<Diagnostic>::empty()),
        };
        let (v2, d2) = spec_fill_all(
            stepped.0,
            batch.subrange(1, batch.len() as int),
            refs.subrange(1, refs.len() as int),
        );
        (v2, stepped.1 + d2)
    }
}

/// Whether following pure aliases from `cur` reaches the handle `start`
/// within `fuel` steps; any record, array, leaf, or unfilled slot on the way
/// stops the walk. With `fuel == shapes.len()` this decides whether `start`
/// lies on a pure-alias cycle when `cur == start`.
pub open spec fn alias_reaches(
    shapes: Seq<Option<Shape>>,
    start: TypeRef,
    cur: TypeRef,
    fuel: nat,
) -> bool
    decreases fuel,
{
    if cur.0 >= shapes.len() {
        false
    } else {
        match shapes[cur.0 as int] {
            Some(Shape::Alias(next)) => if next == start {
                true
            } else if fuel == 0 {
                false
            } else {
                alias_reaches(shapes, start, next, (fuel - 1) as nat)
            },
            _ => false,
        }
    }
}

/// Whether a handle's pure-alias chain returns to the handle itself with no
/// record/array indirection: the illegal cycle of the cycle check.
pub open spec fn self_cycle(shapes: Seq<Option<Shape>>, tr: TypeRef) -> bool {
    alias_reaches(shapes, tr, tr, shapes.len())
}

/// The batch positions whose placeholders lie on pure-alias cycles, in
/// source order: name, handle, and span of each.
pub open spec fn spec_offenders(
    shapes: Seq<Option<Shape>>,
    batch: Seq<Declaration>,
    refs: Seq<Option<TypeRef>>,
    i: int,
) -> Seq<(Symbol, TypeRef, Span)>
    decreases batch.len() - i,
{
    if i < 0 || i >= batch.len() || i >= refs.len() {
        Seq::<(Symbol, TypeRef, Span)>::empty()
    } else {
        let rest = spec_offenders(shapes, batch, refs, i + 1);
        match refs[i] {
            Some(tr) => if self_cycle(shapes, tr) {
                seq![(batch[i].name, tr, batch[i].span)] + rest
            } else {
                rest
            },
            None => rest,
        }
    }
}

/// The `IllegalCycle` reports for the offenders, in source order.
pub open spec fn offender_diags(offs: Seq<(Symbol, TypeRef, Span)>, i: int) -> Seq<Diagnostic>
    decreases offs.len() - i,
{
    if i < 0 || i >= offs.len() {
        Seq::<Diagnostic>::empty()
    } else {
        seq![
            Diagnostic { error: TypeError::IllegalCycle(offs[i].0), span: offs[i].2 },
        ] + offender_diags(offs, i + 1)
    }
}

/// The arena after every offender's entry is replaced by the `Error`
/// sentinel.
pub open spec fn poison_all(
    shapes: Seq<Option<Shape>>,
    offs: Seq<(Symbol, TypeRef, Span)>,
    i: int,
) -> Seq<Option<Shape>>
    decreases offs.len() - i,
{
    if i < 0 || i >= offs.len() {
        shapes
    } else {
        poison_all(shapes.update(offs[i].1.0 as int, Some(Shape::Error)), offs, i + 1)
    }
}

/// Phase 3 over a whole batch: report every name whose chain is an illegal
/// pure-alias cycle, then replace each such entry by `Error`. Detection runs
/// entirely on the arena as phase 2 left it, so every member of a cycle is
/// reported, not only the first.
pub open spec fn spec_cycle_all(
    v: TableView,
    batch: Seq<Declaration>,
    refs: Seq<Option<TypeRef>>,
) -> (TableView, Seq<Diagnostic>) {
    let offs = spec_offenders(v.shapes, batch, refs, 0);
    (
        TableView {
            shapes: poison_all(v.shapes, offs, 0),
            scopes: v.scopes,
            batch_start: v.batch_start,
        },
        offender_diags(offs, 0),
    )
}

/// Phase 2, executed: fills every placeholder of the batch from position `i`
/// on with its translated shape, in source order, skipping positions phase 1
/// refused.
fn fill_all(
    table: &mut TypeTable,
    diags: &mut Diagnostics,
    batch: &Vec<Declaration>,
    refs: &Vec<Option<TypeRef>>,
    i: usize,
)
    requires
        table_wf(old(table)@),
        refs@.len() == batch@.len(),
        i <= batch@.len(),
        forall|p: int|
            i <= p < refs@.len() ==> match #[trigger] refs@[p] {
                Some(tr) => tr.0 < old(table)@.shapes.len() && old(table)@.shapes[tr.0 as int]
                    is None,
                None => true,
            },
        forall|p: int, q: int|
            i <= p < q < refs@.len() && refs@[p] is Some && refs@[q] is Some ==> (
            #[trigger] refs@[p]).unwrap() != (#[trigger] refs@[q]).unwrap(),
    ensures
        table_wf(final(table)@),
        ({
            let (v2, ds) = spec_fill_all(
                old(table)@,
                batch@.subrange(i as int, batch@.len() as int),
                refs@.subrange(i as int, refs@.len() as int),
            );
            &&& final(table)@ == v2
            &&& final(diags)@ == old(diags)@ + ds
        }),
        final(table)@.scopes == old(table)@.scopes,
        final(table)@.batch_start == old(table)@.batch_start,
        old(table)@.shapes.len() <= final(table)@.shapes.len(),
    decreases batch@.len() - i,
{
    if i >= batch.len() {
        proof {
            assert(batch@.subrange(i as int, batch@.len() as int) =~= Seq::<
                Declaration,
            >::empty());
            assert(final(diags)@ =~= old(diags)@ + Seq::<Diagnostic>::empty());
        }
        return ;
    }
    let ghost whole_b = batch@.subrange(i as int, batch@.len() as int);
    let ghost whole_r = refs@.subrange(i as int, refs@.len() as int);
    proof {
        assert(whole_b[0] == batch@[i as int]);
        assert(whole_r[0] == refs@[i as int]);
        assert(whole_b.subrange(1, whole_b.len() as int) =~= batch@.subrange(
            i + 1 as int,
            batch@.len() as int,
        ));
        assert(whole_r.subrange(1, whole_r.len() as int) =~= refs@.subrange(
            i + 1 as int,
            refs@.len() as int,
        ));
    }
    match refs[i] {
        None => {
            fill_all(table, diags, batch, refs, i + 1);
            proof {
                let (v2, ds) = spec_fill_all(
                    old(table)@,
                    batch@.subrange(i + 1 as int, batch@.len() as int),
                    refs@.subrange(i + 1 as int, refs@.len() as int),
                );
                assert(final(diags)@ =~= old(diags)@ + (Seq::<Diagnostic>::empty() + ds));
            }
        },
        Some(tr) => {
            let shape = translate_shape(table, diags, &batch[i].expr, batch[i].span);
            table.assign_shape(tr, shape);
            let ghost mid_table = table@;
            proof {
                let (shapes1, d1, sh1) = spec_translate_shape(
                    old(table)@.shapes,
                    old(table)@.scopes,
                    batch@[i as int].expr,
                    batch@[i as int].span,
                );
                assert(mid_table =~= TableView {
                    shapes: shapes1.update(tr.0 as int, Some(sh1)),
                    scopes: old(table)@.scopes,
                    batch_start: old(table)@.batch_start,
                });
                assert forall|p: int|
                    i + 1 <= p < refs@.len() implies match #[trigger] refs@[p] {
                    Some(t2) => t2.0 < mid_table.shapes.len() && mid_table.shapes[t2.0 as int]
                        is None,
                    None => true,
                } by {
                    match refs@[p] {
                        Some(t2) => {
                            assert(refs@[i as int] is Some);
                            assert(t2 != tr);
                            assert(shapes1[t2.0 as int] is None);
                        },
                        None => {},
                    }
                }
            }
            fill_all(table, diags, batch, refs, i + 1);
            proof {
                let (shapes1, d1, sh1) = spec_translate_shape(
                    old(table)@.shapes,
                    old(table)@.scopes,
                    batch@[i as int].expr,
                    batch@[i as int].span,
                );
                let (v2, ds) = spec_fill_all(
                    mid_table,
                    batch@.subrange(i + 1 as int, batch@.len() as int),
                    refs@.subrange(i + 1 as int, refs@.len() as int),
                );
                assert(final(diags)@ =~= old(diags)@ + (d1 + ds));
            }
        },
    }
}

/// Whether `tr`'s chain of pure aliases returns to `tr` itself, the illegal
/// cycle of the cycle check, exactly as [`self_cycle`] states.
fn is_self_cycle(table: &TypeTable, tr: TypeRef) -> (b: bool)
    requires
        table_wf(table@),
    ensures
        b == self_cycle(table@.shapes, tr),
{
    let mut cur = tr;
    let mut fuel = table.arena_len();
    loop
        invariant
            table_wf(table@),
            fuel <= table@.shapes.len(),
            self_cycle(table@.shapes, tr) == alias_reaches(
                table@.shapes,
                tr,
                cur,
                fuel as nat,
            ),
        decreases fuel,
    {
        if cur.0 >= table.arena_len() {
            return false;
        }
        match table.shape_of(cur) {
            Some(Type::Alias(next)) => {
                if next.0 == tr.0 {
                    return true;
                }
                if fuel == 0 {
                    return false;
                }
                fuel = fuel - 1;
                cur = *next;
            },
            _ => {
                return false;
            },
        }
    }
}

/// Phase 3 detection, executed: appends to `out` the batch positions from
/// `i` on whose placeholders lie on pure-alias cycles, in source order.
/// Detection is read-only, so every member of a cycle is found.
fn find_offenders(
    table: &TypeTable,
    batch: &Vec<Declaration>,
    refs: &Vec<Option<TypeRef>>,
    i: usize,
    out: &mut Vec<(Symbol, TypeRef, Span)>,
)
    requires
        table_wf(table@),
        refs@.len() == batch@.len(),
        i <= batch@.len(),
        forall|p: int|
            i <= p < refs@.len() ==> match #[trigger] refs@[p] {
                Some(tr) => 5 <= tr.0 < table@.shapes.len(),
                None => true,
            },
    ensures
        final(out)@ == old(out)@ + spec_offenders(table@.shapes, batch@, refs@, i as int),
        forall|p: int|
            old(out)@.len() <= p < final(out)@.len() ==> 5 <= (#[trigger] final(out)@[p]).1.0 < table@.shapes.len(),
    decreases batch@.len() - i,
{
    if i >= batch.len() {
        proof {
            assert(final(out)@ =~= old(out)@ + Seq::<(Symbol, TypeRef, Span)>::empty());
        }
        return ;
    }
    let ghost head: Seq<(Symbol, TypeRef, Span)> = match refs@[i as int] {
        Some(tr) => if self_cycle(table@.shapes, tr) {
            seq![(batch@[i as int].name, tr, batch@[i as int].span)]
        } else {
            Seq::<(Symbol, TypeRef, Span)>::empty()
        },
        None => Seq::<(Symbol, TypeRef, Span)>::empty(),
    };
    match refs[i] {
        Some(tr) => {
            if is_self_cycle(table, tr) {
                out.push((batch[i].name, tr, batch[i].span));
            }
        },
        None => {},
    }
    let ghost mid_out = out@;
    proof {
        assert(mid_out == old(out)@ + head);
    }
    find_offenders(table, batch, refs, i + 1, out);
    proof {
        let rest = spec_offenders(table@.shapes, batch@, refs@, i + 1);
        assert(final(out)@ =~= old(out)@ + (head + rest));
    }
}

/// Phase 3 reporting, executed: one `IllegalCycle` per offender, in order.
fn report_offenders(diags: &mut Diagnostics, offs: &Vec<(Symbol, TypeRef, Span)>, i: usize)
    requires
        i <= offs@.len(),
    ensures
        final(diags)@ == old(diags)@ + offender_diags(offs@, i as int),
    decreases offs@.len() - i,
{
    if i >= offs.len() {
        proof {
            assert(final(diags)@ =~= old(diags)@ + Seq::<Diagnostic>::empty());
        }
        return ;
    }
    diags.report(TypeError::IllegalCycle(offs[i].0), offs[i].2);
    report_offenders(diags, offs, i + 1);
    proof {
        assert(final(diags)@ =~= old(diags)@ + (seq![
            Diagnostic { error: TypeError::IllegalCycle(offs@[i as int].0), span: offs@[i as int].2 },
        ] + offender_diags(offs@, i + 1)));
    }
}

/// Phase 3 recovery, executed: replaces every offender's entry with the
/// `Error` sentinel.
fn poison_offenders(table: &mut TypeTable, offs: &Vec<(Symbol, TypeRef, Span)>, i: usize)
    requires
        table_wf(old(table)@),
        i <= offs@.len(),
        forall|p: int|
            i <= p < offs@.len() ==> 5 <= (#[trigger] offs@[p]).1.0 < old(table)@.shapes.len(),
    ensures
        table_wf(final(table)@),
        final(table)@.shapes == poison_all(old(table)@.shapes, offs@, i as int),
        final(table)@.scopes == old(table)@.scopes,
        final(table)@.batch_start == old(table)@.batch_start,
    decreases offs@.len() - i,
{
    if i >= offs.len() {
        return ;
    }
    table.poison(offs[i].1);
    poison_offenders(table, offs, i + 1);
}

/// Resolves one batch of mutually recursive type declarations into the
/// table, in source order, accumulating every diagnostic into `diags`:
/// phase 1 declares placeholders (reporting `DuplicateDeclaration`), phase 2
/// translates and fills each right-hand side (reporting `UnknownType` and
/// substituting `Error` at the offending node), and phase 3 reports each
/// `IllegalCycle` and replaces the cyclic entries with `Error`. The exact
/// outcome, table and diagnostics alike, is the composition
/// [`spec_declare_all`], [`spec_fill_all`], [`spec_cycle_all`].
pub fn resolve_batch(table: &mut TypeTable, diags: &mut Diagnostics, batch: &Vec<Declaration>)
    requires
        table_wf(old(table)@),
    ensures
        table_wf(final(table)@),
        ({
            let v0 = TableView {
                shapes: old(table)@.shapes,
                scopes: old(table)@.scopes,
                batch_start: old(table)@.scopes.last().len(),
            };
            let (v1, d1, refs) = spec_declare_all(v0, batch@);
            let (v2, d2) = spec_fill_all(v1, batch@, refs);
            let (v3, d3) = spec_cycle_all(v2, batch@, refs);
            &&& final(table)@ == v3
            &&& final(diags)@ == old(diags)@ + d1 + d2 + d3
        }),
{
    table.begin_batch();
    let ghost v0 = table@;
    let mut refs: Vec<Option<TypeRef>> = Vec::new();
    declare_all(table, diags, batch, 0, &mut refs);
    proof {
        assert(v0 =~= TableView {
            shapes: old(table)@.shapes,
            scopes: old(table)@.scopes,
            batch_start: old(table)@.scopes.last().len(),
        });
        assert(batch@.subrange(0, batch@.len() as int) =~= batch@);
        let (v1, d1, refs1) = spec_declare_all(v0, batch@);
        assert(refs@ =~= Seq::<Option<TypeRef>>::empty() + refs1);
        assert(refs@ =~= refs1);
    }
    let ghost v1 = table@;
    fill_all(table, diags, batch, &refs, 0);
    proof {
        assert(refs@.subrange(0, refs@.len() as int) =~= refs@);
        assert forall|p: int|
            0 <= p < refs@.len() implies match #[trigger] refs@[p] {
            Some(tr) => 5 <= tr.0 < table@.shapes.len(),
            None => true,
        } by {
            match refs@[p] {
                Some(tr) => {
                    assert(v0.shapes.len() >= 5);
                    assert(tr.0 < v1.shapes.len());
                },
                None => {},
            }
        }
    }
    let ghost v2 = table@;
    let mut offs: Vec<(Symbol, TypeRef, Span)> = Vec::new();
    find_offenders(table, batch, &refs, 0, &mut offs);
    proof {
        assert(offs@ =~= Seq::<(Symbol, TypeRef, Span)>::empty() + spec_offenders(
            v2.shapes,
            batch@,
            refs@,
            0,
        ));
    }
    report_offenders(diags, &offs, 0);
    poison_offenders(table, &offs, 0);
    proof {
        let (sv1, d1, srefs) = spec_declare_all(v0, batch@);
        let (sv2, d2) = spec_fill_all(sv1, batch@, srefs);
        let (sv3, d3) = spec_cycle_all(sv2, batch@, srefs);
        assert(table@ =~= sv3);
        assert(diags@ =~= old(diags)@ + d1 + d2 + d3);
    }
}

} // verus!
