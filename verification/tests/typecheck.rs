use tiger_types::diag::{Diagnostics, Span, TypeError};
use tiger_types::resolve::{resolve_batch, Declaration, TypeExpr};
use tiger_types::table::{error_ref, int_ref, nil_ref, string_ref, unit_ref, TypeTable};
use tiger_types::ty::{Symbol, Type, TypeRef};

const INT: Symbol = Symbol(1);
const STRING: Symbol = Symbol(2);

fn sp() -> Span {
    Span { lo: 0, hi: 0 }
}

/// A table with the base environment the driver would install: the interned
/// `int` and `string` bound onto the built-in leaves.
fn base_table() -> TypeTable {
    let mut t = TypeTable::new();
    t.bind(INT, int_ref());
    t.bind(STRING, string_ref());
    t
}

fn decl(name: Symbol, expr: TypeExpr) -> Declaration {
    Declaration { name, expr, span: sp() }
}

#[test]
fn unify_same_leaves() {
    let t = base_table();
    assert_eq!(Ok(int_ref()), t.unify(int_ref(), int_ref()));
    assert_eq!(Ok(string_ref()), t.unify(string_ref(), string_ref()));
    assert_eq!(Ok(unit_ref()), t.unify(unit_ref(), unit_ref()));
    assert_eq!(Ok(nil_ref()), t.unify(nil_ref(), nil_ref()));
}

#[test]
fn unify_int_string_mismatch() {
    let t = base_table();
    assert_eq!(
        Err(TypeError::TypeMismatch(int_ref(), string_ref())),
        t.unify(int_ref(), string_ref())
    );
}

#[test]
fn unify_through_aliases() {
    // type a = int  followed by  type b = a: both sides resolve to Int.
    let mut t = base_table();
    let mut d = Diagnostics::new();
    let a = Symbol(10);
    let b = Symbol(11);
    resolve_batch(&mut t, &mut d, &vec![decl(a, TypeExpr::Name(INT))]);
    resolve_batch(&mut t, &mut d, &vec![decl(b, TypeExpr::Name(a))]);
    assert!(d.is_empty());
    let ra = t.lookup(a).unwrap();
    let rb = t.lookup(b).unwrap();
    assert_eq!(Ok(int_ref()), t.unify(ra, rb));
    assert_eq!(Ok(Type::Int), t.resolve(rb));
}

#[test]
fn nil_unifies_with_record_only() {
    let mut t = base_table();
    let mut d = Diagnostics::new();
    let rec = Symbol(10);
    let arr = Symbol(11);
    let x = Symbol(12);
    resolve_batch(
        &mut t,
        &mut d,
        &vec![
            decl(rec, TypeExpr::RecordLit(vec![(x, TypeExpr::Name(INT))])),
            decl(arr, TypeExpr::ArrayLit(Box::new(TypeExpr::Name(INT)))),
        ],
    );
    assert!(d.is_empty());
    let r = t.lookup(rec).unwrap();
    let a = t.lookup(arr).unwrap();
    // Nil against a record yields the record, in either order.
    assert_eq!(Ok(r), t.unify(nil_ref(), r));
    assert_eq!(Ok(r), t.unify(r, nil_ref()));
    // Nil against an array or a leaf fails.
    assert_eq!(Err(TypeError::TypeMismatch(nil_ref(), a)), t.unify(nil_ref(), a));
    assert_eq!(
        Err(TypeError::TypeMismatch(nil_ref(), int_ref())),
        t.unify(nil_ref(), int_ref())
    );
}

#[test]
fn identical_records_are_incompatible() {
    // Two independently declared records with identical field lists.
    let mut t = base_table();
    let mut d = Diagnostics::new();
    let r1 = Symbol(10);
    let r2 = Symbol(11);
    let x = Symbol(12);
    resolve_batch(
        &mut t,
        &mut d,
        &vec![
            decl(r1, TypeExpr::RecordLit(vec![(x, TypeExpr::Name(INT))])),
            decl(r2, TypeExpr::RecordLit(vec![(x, TypeExpr::Name(INT))])),
        ],
    );
    assert!(d.is_empty());
    let h1 = t.lookup(r1).unwrap();
    let h2 = t.lookup(r2).unwrap();
    // The shapes are structurally identical...
    assert_eq!(t.resolve(h1), t.resolve(h2));
    // ...yet the types are mutually incompatible, in both directions.
    assert_eq!(Err(TypeError::TypeMismatch(h1, h2)), t.unify(h1, h2));
    assert_eq!(Err(TypeError::TypeMismatch(h2, h1)), t.unify(h2, h1));
}

#[test]
fn recursive_record_through_indirection() {
    // type intlist = {head: int, tail: intlist}
    let mut t = base_table();
    let mut d = Diagnostics::new();
    let intlist = Symbol(10);
    let head = Symbol(11);
    let tail = Symbol(12);
    resolve_batch(
        &mut t,
        &mut d,
        &vec![decl(
            intlist,
            TypeExpr::RecordLit(vec![
                (head, TypeExpr::Name(INT)),
                (tail, TypeExpr::Name(intlist)),
            ]),
        )],
    );
    assert!(d.is_empty());
    let h = t.lookup(intlist).unwrap();
    match t.resolve(h).unwrap() {
        Type::Record(fields) => {
            assert_eq!(2, fields.len());
            assert_eq!((head, int_ref()), fields[0]);
            // The tail field's handle is the record's own handle.
            assert_eq!((tail, h), fields[1]);
        },
        other => panic!("expected a record, got {:?}", other),
    }
}

#[test]
fn recursive_array_through_indirection() {
    // type chain = array of chain: legal, the indirection terminates it.
    let mut t = base_table();
    let mut d = Diagnostics::new();
    let chain = Symbol(10);
    resolve_batch(
        &mut t,
        &mut d,
        &vec![decl(chain, TypeExpr::ArrayLit(Box::new(TypeExpr::Name(chain))))],
    );
    assert!(d.is_empty());
    let h = t.lookup(chain).unwrap();
    assert_eq!(Ok(Type::Array(h)), t.resolve(h));
}

#[test]
fn mutual_aliases_are_an_illegal_cycle() {
    // type a = b  followed by  type b = a, in one batch.
    let mut t = base_table();
    let mut d = Diagnostics::new();
    let a = Symbol(10);
    let b = Symbol(11);
    resolve_batch(
        &mut t,
        &mut d,
        &vec![decl(a, TypeExpr::Name(b)), decl(b, TypeExpr::Name(a))],
    );
    // Every member of the cycle is reported, in source order.
    assert_eq!(2, d.len());
    assert_eq!(TypeError::IllegalCycle(a), d.get(0).error);
    assert_eq!(TypeError::IllegalCycle(b), d.get(1).error);
    // The offending entries hold the sentinel, so checking continues.
    let ha = t.lookup(a).unwrap();
    assert_eq!(Ok(Type::Error), t.resolve(ha));
    assert_eq!(Ok(ha), t.unify(ha, int_ref()));
}

#[test]
fn self_alias_is_an_illegal_cycle() {
    let mut t = base_table();
    let mut d = Diagnostics::new();
    let a = Symbol(10);
    resolve_batch(&mut t, &mut d, &vec![decl(a, TypeExpr::Name(a))]);
    assert_eq!(1, d.len());
    assert_eq!(TypeError::IllegalCycle(a), d.get(0).error);
}

#[test]
fn duplicate_declaration_in_one_batch() {
    // type a = int  twice in the same batch.
    let mut t = base_table();
    let mut d = Diagnostics::new();
    let a = Symbol(10);
    resolve_batch(
        &mut t,
        &mut d,
        &vec![decl(a, TypeExpr::Name(INT)), decl(a, TypeExpr::Name(INT))],
    );
    assert_eq!(1, d.len());
    assert_eq!(TypeError::DuplicateDeclaration(a), d.get(0).error);
    // The first declaration stands.
    let h = t.lookup(a).unwrap();
    assert_eq!(Ok(Type::Int), t.resolve(h));
}

#[test]
fn shadowing_across_scopes_is_legal() {
    // type a = int in an outer scope, then type a = string inside an inner
    // scope; after the inner scope exits, lookups observe the outer binding.
    let mut t = base_table();
    let mut d = Diagnostics::new();
    let a = Symbol(10);
    resolve_batch(&mut t, &mut d, &vec![decl(a, TypeExpr::Name(INT))]);
    let outer = t.lookup(a).unwrap();
    t.enter_scope();
    resolve_batch(&mut t, &mut d, &vec![decl(a, TypeExpr::Name(STRING))]);
    assert!(d.is_empty());
    let inner = t.lookup(a).unwrap();
    assert_ne!(outer, inner);
    assert_eq!(Ok(Type::String), t.resolve(inner));
    t.exit_scope();
    assert_eq!(Ok(outer), t.lookup(a));
    assert_eq!(Ok(Type::Int), t.resolve(outer));
}

#[test]
fn unknown_name_lookup_fails() {
    let t = base_table();
    let missing = Symbol(99);
    assert_eq!(Err(TypeError::UnknownType(missing)), t.lookup(missing));
}

#[test]
fn unknown_name_in_declaration_is_reported_and_poisoned() {
    let mut t = base_table();
    let mut d = Diagnostics::new();
    let a = Symbol(10);
    let missing = Symbol(99);
    resolve_batch(&mut t, &mut d, &vec![decl(a, TypeExpr::Name(missing))]);
    assert_eq!(1, d.len());
    assert_eq!(TypeError::UnknownType(missing), d.get(0).error);
    let h = t.lookup(a).unwrap();
    assert_eq!(Ok(Type::Error), t.resolve(h));
}

#[test]
fn resolve_is_idempotent() {
    let mut t = base_table();
    let mut d = Diagnostics::new();
    let a = Symbol(10);
    let b = Symbol(11);
    resolve_batch(
        &mut t,
        &mut d,
        &vec![decl(a, TypeExpr::Name(INT)), decl(b, TypeExpr::Name(a))],
    );
    let h = t.lookup(b).unwrap();
    let first = t.resolve(h);
    let second = t.resolve(h);
    let third = t.resolve(h);
    assert_eq!(Ok(Type::Int), first);
    assert_eq!(first, second);
    assert_eq!(second, third);
    // The handle a resolution lands on resolves to itself.
    let e = t.resolve_ref(h).unwrap();
    assert_eq!(Ok(e), t.resolve_ref(e));
}

#[test]
fn unfilled_placeholder_is_fatal() {
    let mut t = base_table();
    t.begin_batch();
    let tr = t.declare(Symbol(10)).unwrap();
    assert_eq!(
        Err(TypeError::UnresolvedNameInvariantViolation),
        t.resolve(tr)
    );
    assert_eq!(
        Err(TypeError::UnresolvedNameInvariantViolation),
        t.unify(tr, int_ref())
    );
}

#[test]
fn error_sentinel_unifies_with_anything() {
    let t = base_table();
    assert_eq!(Ok(error_ref()), t.unify(error_ref(), int_ref()));
    assert_eq!(Ok(error_ref()), t.unify(string_ref(), error_ref()));
    assert_eq!(Ok(error_ref()), t.unify(error_ref(), nil_ref()));
}

#[test]
fn composite_kind_mismatches() {
    let mut t = base_table();
    let mut d = Diagnostics::new();
    let rec = Symbol(10);
    let arr = Symbol(11);
    let x = Symbol(12);
    resolve_batch(
        &mut t,
        &mut d,
        &vec![
            decl(rec, TypeExpr::RecordLit(vec![(x, TypeExpr::Name(INT))])),
            decl(arr, TypeExpr::ArrayLit(Box::new(TypeExpr::Name(INT)))),
        ],
    );
    let r = t.lookup(rec).unwrap();
    let a = t.lookup(arr).unwrap();
    assert_eq!(Err(TypeError::TypeMismatch(a, r)), t.unify(a, r));
    assert_eq!(Err(TypeError::TypeMismatch(a, int_ref())), t.unify(a, int_ref()));
    assert_eq!(
        Err(TypeError::TypeMismatch(unit_ref(), int_ref())),
        t.unify(unit_ref(), int_ref())
    );
}

#[test]
fn two_arrays_are_nominally_distinct() {
    let mut t = base_table();
    let mut d = Diagnostics::new();
    let a1 = Symbol(10);
    let a2 = Symbol(11);
    resolve_batch(
        &mut t,
        &mut d,
        &vec![
            decl(a1, TypeExpr::ArrayLit(Box::new(TypeExpr::Name(INT)))),
            decl(a2, TypeExpr::ArrayLit(Box::new(TypeExpr::Name(INT)))),
        ],
    );
    let h1 = t.lookup(a1).unwrap();
    let h2 = t.lookup(a2).unwrap();
    assert_eq!(Err(TypeError::TypeMismatch(h1, h2)), t.unify(h1, h2));
    assert_eq!(Ok(h1), t.unify(h1, h1));
}

#[test]
fn duplicate_record_field_is_reported_and_dropped() {
    let mut t = base_table();
    let mut d = Diagnostics::new();
    let rec = Symbol(10);
    let x = Symbol(11);
    resolve_batch(
        &mut t,
        &mut d,
        &vec![decl(
            rec,
            TypeExpr::RecordLit(vec![
                (x, TypeExpr::Name(INT)),
                (x, TypeExpr::Name(STRING)),
            ]),
        )],
    );
    assert_eq!(1, d.len());
    assert_eq!(TypeError::DuplicateDeclaration(x), d.get(0).error);
    let h = t.lookup(rec).unwrap();
    match t.resolve(h).unwrap() {
        Type::Record(fields) => {
            assert_eq!(vec![(x, int_ref())], fields);
        },
        other => panic!("expected a record, got {:?}", other),
    }
}

#[test]
fn nested_record_literal_gets_its_own_identity() {
    // type q = {p: {x: int}}: the inner literal is a distinct record type.
    let mut t = base_table();
    let mut d = Diagnostics::new();
    let q = Symbol(10);
    let p = Symbol(11);
    let x = Symbol(12);
    resolve_batch(
        &mut t,
        &mut d,
        &vec![decl(
            q,
            TypeExpr::RecordLit(vec![(
                p,
                TypeExpr::RecordLit(vec![(x, TypeExpr::Name(INT))]),
            )]),
        )],
    );
    assert!(d.is_empty());
    let hq = t.lookup(q).unwrap();
    let inner: TypeRef = match t.resolve(hq).unwrap() {
        Type::Record(fields) => fields[0].1,
        other => panic!("expected a record, got {:?}", other),
    };
    assert_ne!(hq, inner);
    match t.resolve(inner).unwrap() {
        Type::Record(fields) => assert_eq!(vec![(x, int_ref())], fields),
        other => panic!("expected a record, got {:?}", other),
    }
    assert_eq!(Err(TypeError::TypeMismatch(hq, inner)), t.unify(hq, inner));
}

#[test]
fn forward_reference_within_a_batch() {
    // type a = b  followed by  type b = int: legal, b is visible from phase 1.
    let mut t = base_table();
    let mut d = Diagnostics::new();
    let a = Symbol(10);
    let b = Symbol(11);
    resolve_batch(
        &mut t,
        &mut d,
        &vec![decl(a, TypeExpr::Name(b)), decl(b, TypeExpr::Name(INT))],
    );
    assert!(d.is_empty());
    let ha = t.lookup(a).unwrap();
    assert_eq!(Ok(Type::Int), t.resolve(ha));
    assert_eq!(Ok(int_ref()), t.unify(ha, int_ref()));
}

#[test]
fn empty_batch_changes_nothing() {
    let mut t = base_table();
    let mut d = Diagnostics::new();
    resolve_batch(&mut t, &mut d, &vec![]);
    assert!(d.is_empty());
    assert_eq!(Ok(int_ref()), t.lookup(INT));
}

#[test]
fn empty_record_literal_resolves() {
    let mut t = base_table();
    let mut d = Diagnostics::new();
    let r = Symbol(10);
    resolve_batch(&mut t, &mut d, &vec![decl(r, TypeExpr::RecordLit(vec![]))]);
    assert!(d.is_empty());
    let h = t.lookup(r).unwrap();
    assert_eq!(Ok(Type::Record(vec![])), t.resolve(h));
    // Even an empty record is a record: nil is assignable to it.
    assert_eq!(Ok(h), t.unify(nil_ref(), h));
}

#[test]
fn redeclaring_in_a_later_batch_shadows() {
    let mut t = base_table();
    let mut d = Diagnostics::new();
    let a = Symbol(10);
    resolve_batch(&mut t, &mut d, &vec![decl(a, TypeExpr::Name(INT))]);
    resolve_batch(&mut t, &mut d, &vec![decl(a, TypeExpr::Name(STRING))]);
    assert!(d.is_empty());
    let h = t.lookup(a).unwrap();
    assert_eq!(Ok(Type::String), t.resolve(h));
}
