use rediff::{
    dynamic_route, equal_or_replace, finish_sequence_diff, mixed_route, route_for, variant_route, Diff, DynKind, DynRoute,
    FieldsKind, Interspersed, Route, ShapeForm, Updates, VariantRoute,
};

fn plain(type_id: &str) -> ShapeForm {
    ShapeForm {
        type_id: type_id.to_string(),
        partial_eq: true,
        struct_kind: None,
        is_enum: false,
        is_option: false,
        is_list: false,
        is_map: false,
        is_set: false,
        is_dynamic: false,
    }
}

#[test]
fn equal_values_of_one_type_are_equal() {
    assert_eq!(route_for(&plain("u32"), &plain("u32"), true), Route::Equal);
    // Different types are never equal by `==`
    assert_eq!(route_for(&plain("u32"), &plain("i32"), true), Route::Replace);
    // A type without PartialEq is walked instead
    let mut s = plain("Point");
    s.partial_eq = false;
    s.struct_kind = Some(FieldsKind::Struct);
    assert_eq!(route_for(&s, &s, true), Route::Structs { tuple: false });
}

#[test]
fn structs_need_the_same_kind() {
    let mut a = plain("A");
    a.struct_kind = Some(FieldsKind::TupleStruct);
    let mut b = plain("B");
    b.struct_kind = Some(FieldsKind::TupleStruct);
    assert_eq!(route_for(&a, &b, false), Route::Structs { tuple: true });
    b.struct_kind = Some(FieldsKind::Struct);
    assert_eq!(route_for(&a, &b, false), Route::Replace);
}

#[test]
fn enums_come_before_options() {
    let mut a = plain("Option<u8>");
    a.is_enum = true;
    a.is_option = true;
    assert_eq!(route_for(&a, &a, false), Route::Enums);
    let mut b = plain("Maybe");
    b.is_option = true;
    assert_eq!(route_for(&b, &b, false), Route::Options);
}

#[test]
fn collections_and_dynamic_values() {
    let mut l = plain("Vec<u8>");
    l.is_list = true;
    assert_eq!(route_for(&l, &l, false), Route::Lists);
    let mut m = plain("HashMap");
    m.is_map = true;
    assert_eq!(route_for(&m, &m, false), Route::Maps);
    let mut s = plain("HashSet");
    s.is_set = true;
    assert_eq!(route_for(&s, &s, false), Route::Sets);
    let mut d = plain("Value");
    d.is_dynamic = true;
    assert_eq!(route_for(&d, &d, false), Route::Dynamics);
    assert_eq!(route_for(&d, &l, false), Route::DynamicFrom);
    assert_eq!(route_for(&l, &d, false), Route::DynamicTo);
    assert_eq!(route_for(&l, &m, false), Route::Replace);
}

#[test]
fn variants() {
    assert_eq!(variant_route("A", FieldsKind::Tuple, "B", FieldsKind::Tuple), VariantRoute::Replace);
    assert_eq!(variant_route("A", FieldsKind::Tuple, "A", FieldsKind::Struct), VariantRoute::Replace);
    assert_eq!(variant_route("A", FieldsKind::TupleStruct, "A", FieldsKind::TupleStruct), VariantRoute::Elements);
    assert_eq!(variant_route("A", FieldsKind::Struct, "A", FieldsKind::Struct), VariantRoute::Fields);
    assert_eq!(variant_route("A", FieldsKind::Unit, "A", FieldsKind::Unit), VariantRoute::Fields);
}

#[test]
fn dynamic_kinds() {
    assert_eq!(dynamic_route(DynKind::Bool, DynKind::Number), DynRoute::Replace);
    assert_eq!(dynamic_route(DynKind::Null, DynKind::Null), DynRoute::Equal);
    assert_eq!(dynamic_route(DynKind::Number, DynKind::Number), DynRoute::Scalars);
    assert_eq!(dynamic_route(DynKind::DateTime, DynKind::DateTime), DynRoute::Scalars);
    assert_eq!(dynamic_route(DynKind::Array, DynKind::Array), DynRoute::Elements);
    assert_eq!(dynamic_route(DynKind::Object, DynKind::Object), DynRoute::Entries);
    assert_eq!(dynamic_route(DynKind::Uuid, DynKind::Uuid), DynRoute::Replace);
}

#[test]
fn dynamic_against_concrete() {
    assert_eq!(mixed_route(DynKind::String, false, false), DynRoute::Scalars);
    assert_eq!(mixed_route(DynKind::Array, true, false), DynRoute::Elements);
    assert_eq!(mixed_route(DynKind::Array, false, true), DynRoute::Replace);
    assert_eq!(mixed_route(DynKind::Object, false, true), DynRoute::Entries);
    assert_eq!(mixed_route(DynKind::Bytes, true, true), DynRoute::Replace);
}

#[test]
fn yes_or_no_diffs() {
    let d: Diff<i32, ()> = equal_or_replace(true, 1, 2);
    assert!(matches!(d, Diff::Equal { value: Some(1) }));
    let d: Diff<i32, ()> = equal_or_replace(false, 1, 2);
    assert!(matches!(d, Diff::Replace { from: 1, to: 2 }));
    let u: Updates<i32, ()> = Updates(Interspersed { first: None, values: vec![], last: Some(vec![1]) });
    assert!(finish_sequence_diff(u, 7, (), ()).is_equal());
}
