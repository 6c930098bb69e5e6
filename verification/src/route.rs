//! Which comparison two values call for.
//!
//! Two values are first checked for plain equality; otherwise their shapes
//! decide: structs of one kind compare field by field, enums variant by
//! variant, options by their contents, lists element by element, maps entry
//! by entry, sets by their items, dynamic values by their kind; anything
//! else is replaced as a whole.

use vstd::prelude::*;

use crate::core_sequences::{updates_is_empty, Updates};
use crate::text::str_eq;
use crate::types::Diff;

verus! {

/// The kind of a struct, or of the data of an enum variant.
#[derive(Debug, Clone, Copy, PartialEq, Eq, Structural)]
pub enum FieldsKind {
    /// `struct UnitStruct;`
    Unit,
    /// `struct TupleStruct(T0, T1);`
    TupleStruct,
    /// `struct S { foo: T0, bar: T1 }`
    Struct,
    /// `(T0, T1)`
    Tuple,
}

/// The kind of value a dynamic value holds.
#[derive(Debug, Clone, Copy, PartialEq, Eq, Structural)]
pub enum DynKind {
    /// Null value
    Null,
    /// Boolean value
    Bool,
    /// Number value (integer or float)
    Number,
    /// String value
    String,
    /// Binary data
    Bytes,
    /// Array of values
    Array,
    /// Object (string keys, dynamic values)
    Object,
    /// Date and time
    DateTime,
    /// Qualified name (namespace and local name)
    QName,
    /// UUID
    Uuid,
}

/// What the comparison reads of a value's shape: its type's name, whether
/// the type can be compared with `==`, and the forms it takes.
pub struct ShapeForm {
    /// The type's identifier
    pub type_id: String,
    /// Whether the type implements `PartialEq`
    pub partial_eq: bool,
    /// The kind of struct, when the type is a struct
    pub struct_kind: Option<FieldsKind>,
    /// Whether the type is an enum
    pub is_enum: bool,
    /// Whether the type is an option
    pub is_option: bool,
    /// Whether the type is a list, a slice or a sequence
    pub is_list: bool,
    /// Whether the type is a map
    pub is_map: bool,
    /// Whether the type is a set
    pub is_set: bool,
    /// Whether the type is a dynamic value
    pub is_dynamic: bool,
}

/// The comparison that two values call for.
#[derive(Debug, Clone, Copy, PartialEq, Eq, Structural)]
pub enum Route {
    /// The values are equal
    Equal,
    /// Two structs of the same kind: element by element when `tuple`,
    /// otherwise field by field
    Structs {
        /// Whether the structs are tuples or tuple structs
        tuple: bool,
    },
    /// Two enums: by their active variants
    Enums,
    /// Two options: by their contents
    Options,
    /// Two lists: element by element
    Lists,
    /// Two maps: entry by entry
    Maps,
    /// Two sets: by their items
    Sets,
    /// Two dynamic values: by their kinds
    Dynamics,
    /// A dynamic value (`from`) against a value of a concrete type
    DynamicFrom,
    /// A value of a concrete type against a dynamic value (`to`)
    DynamicTo,
    /// Nothing in common: the value is replaced
    Replace,
}

/// Whether a kind of struct holds unnamed elements.
pub open spec fn tuple_kind(k: FieldsKind) -> bool {
    k == FieldsKind::Tuple || k == FieldsKind::TupleStruct
}

/// The comparison that two shapes call for, `equal` telling whether `==`
/// (or a float tolerance) finds the values equal.
pub open spec fn route_of(from: ShapeForm, to: ShapeForm, equal: bool) -> Route {
    if from.type_id@ == to.type_id@ && from.partial_eq && to.partial_eq && equal {
        Route::Equal
    } else if from.struct_kind is Some && to.struct_kind is Some && from.struct_kind == to.struct_kind {
        Route::Structs { tuple: tuple_kind(from.struct_kind->0) }
    } else if from.is_enum && to.is_enum {
        Route::Enums
    } else if from.is_option && to.is_option {
        Route::Options
    } else if from.is_list && to.is_list {
        Route::Lists
    } else if from.is_map && to.is_map {
        Route::Maps
    } else if from.is_set && to.is_set {
        Route::Sets
    } else if from.is_dynamic && to.is_dynamic {
        Route::Dynamics
    } else if from.is_dynamic {
        Route::DynamicFrom
    } else if to.is_dynamic {
        Route::DynamicTo
    } else {
        Route::Replace
    }
}

/// Whether a kind of struct holds unnamed elements.
pub fn is_tuple_kind(k: FieldsKind) -> (r: bool)
    ensures
        r == tuple_kind(k),
{
    match k {
        FieldsKind::Tuple | FieldsKind::TupleStruct => true,
        _ => false,
    }
}

/// Choose the comparison for two values: equal values of one type that
/// implements `PartialEq` are equal; otherwise the first of these that both
/// shapes take decides: structs of the same kind, enums, options, lists,
/// maps, sets, dynamic values; a dynamic value against a concrete one is
/// compared by the dynamic value's kind; anything else is replaced.
pub fn route_for(from: &ShapeForm, to: &ShapeForm, equal: bool) -> (r: Route)
    ensures
        r == route_of(*from, *to, equal),
{
    if str_eq(from.type_id.as_str(), to.type_id.as_str()) && from.partial_eq && to.partial_eq && equal {
        return Route::Equal;
    }
    match (from.struct_kind, to.struct_kind) {
        (Some(a), Some(b)) => {
            if a == b {
                return Route::Structs { tuple: is_tuple_kind(a) };
            }
        },
        _ => {},
    }
    if from.is_enum && to.is_enum {
        Route::Enums
    } else if from.is_option && to.is_option {
        Route::Options
    } else if from.is_list && to.is_list {
        Route::Lists
    } else if from.is_map && to.is_map {
        Route::Maps
    } else if from.is_set && to.is_set {
        Route::Sets
    } else if from.is_dynamic && to.is_dynamic {
        Route::Dynamics
    } else if from.is_dynamic {
        Route::DynamicFrom
    } else if to.is_dynamic {
        Route::DynamicTo
    } else {
        Route::Replace
    }
}

/// How two enum values compare.
#[derive(Debug, Clone, Copy, PartialEq, Eq, Structural)]
pub enum VariantRoute {
    /// Different variants, or variants of different kinds: replaced
    Replace,
    /// The same tuple variant: element by element
    Elements,
    /// The same struct (or unit) variant: field by field
    Fields,
}

/// How two enum values compare, by their active variants.
pub open spec fn variant_route_of(from_name: Seq<char>, from_kind: FieldsKind, to_name: Seq<char>, to_kind: FieldsKind) -> VariantRoute {
    if from_name != to_name || from_kind != to_kind {
        VariantRoute::Replace
    } else if tuple_kind(from_kind) {
        VariantRoute::Elements
    } else {
        VariantRoute::Fields
    }
}

/// Choose how two enum values compare: different variants (by name or by
/// kind) are replaced; the same variant compares its data.
pub fn variant_route(from_name: &str, from_kind: FieldsKind, to_name: &str, to_kind: FieldsKind) -> (r: VariantRoute)
    ensures
        r == variant_route_of(from_name@, from_kind, to_name@, to_kind),
{
    if !str_eq(from_name, to_name) || from_kind != to_kind {
        VariantRoute::Replace
    } else if is_tuple_kind(from_kind) {
        VariantRoute::Elements
    } else {
        VariantRoute::Fields
    }
}

/// How two dynamic values compare, or a dynamic value and a concrete one.
#[derive(Debug, Clone, Copy, PartialEq, Eq, Structural)]
pub enum DynRoute {
    /// Equal without looking further
    Equal,
    /// Replaced without looking further
    Replace,
    /// Equal if their scalar contents are equal, replaced otherwise
    Scalars,
    /// Element by element, as sequences
    Elements,
    /// Entry by entry, as structs
    Entries,
}

/// How two dynamic values compare, by their kinds.
pub open spec fn dynamic_route_of(from: DynKind, to: DynKind) -> DynRoute {
    if from != to {
        DynRoute::Replace
    } else {
        match from {
            DynKind::Null => DynRoute::Equal,
            DynKind::Bool | DynKind::Number | DynKind::String | DynKind::Bytes | DynKind::DateTime => DynRoute::Scalars,
            DynKind::Array => DynRoute::Elements,
            DynKind::Object => DynRoute::Entries,
            DynKind::QName | DynKind::Uuid => DynRoute::Replace,
        }
    }
}

/// Choose how two dynamic values compare: different kinds are replaced;
/// nulls are equal; booleans, numbers, strings, bytes and dates compare
/// their contents; arrays compare as sequences, objects as structs;
/// qualified names and UUIDs are replaced.
pub fn dynamic_route(from: DynKind, to: DynKind) -> (r: DynRoute)
    ensures
        r == dynamic_route_of(from, to),
{
    if from != to {
        return DynRoute::Replace;
    }
    match from {
        DynKind::Null => DynRoute::Equal,
        DynKind::Bool | DynKind::Number | DynKind::String | DynKind::Bytes | DynKind::DateTime => DynRoute::Scalars,
        DynKind::Array => DynRoute::Elements,
        DynKind::Object => DynRoute::Entries,
        DynKind::QName | DynKind::Uuid => DynRoute::Replace,
    }
}

/// How a dynamic value compares with a concrete one, by the dynamic
/// value's kind and what the concrete value can be read as.
pub open spec fn mixed_route_of(kind: DynKind, concrete_is_list: bool, concrete_is_struct: bool) -> DynRoute {
    match kind {
        DynKind::Bool | DynKind::Number | DynKind::String => DynRoute::Scalars,
        DynKind::Array => if concrete_is_list {
            DynRoute::Elements
        } else {
            DynRoute::Replace
        },
        DynKind::Object => if concrete_is_struct {
            DynRoute::Entries
        } else {
            DynRoute::Replace
        },
        _ => DynRoute::Replace,
    }
}

/// Choose how a dynamic value compares with a concrete one: booleans,
/// numbers and strings compare their contents; an array against a list
/// compares as sequences; an object against a struct compares as structs;
/// anything else is replaced.
pub fn mixed_route(kind: DynKind, concrete_is_list: bool, concrete_is_struct: bool) -> (r: DynRoute)
    ensures
        r == mixed_route_of(kind, concrete_is_list, concrete_is_struct),
{
    match kind {
        DynKind::Bool | DynKind::Number | DynKind::String => DynRoute::Scalars,
        DynKind::Array => if concrete_is_list {
            DynRoute::Elements
        } else {
            DynRoute::Replace
        },
        DynKind::Object => if concrete_is_struct {
            DynRoute::Entries
        } else {
            DynRoute::Replace
        },
        _ => DynRoute::Replace,
    }
}

/// Two dynamic values are replaced without looking further exactly when
/// their kinds differ or their kind holds nothing that is compared (a
/// qualified name or a UUID): two values of any other same kind are compared.
pub proof fn lemma_dynamic_replaced_only_when_nothing_compared(from: DynKind, to: DynKind)
    ensures
        (dynamic_route_of(from, to) == DynRoute::Replace) <==> (from != to || from == DynKind::QName || from == DynKind::Uuid),
{
}

/// Two dynamic values of the same scalar kind (a boolean, a number, a
/// string, bytes or a date) are compared by their contents, so equal
/// contents make them equal.
pub proof fn lemma_dynamic_scalars_compare_contents(k: DynKind)
    requires
        k == DynKind::Bool || k == DynKind::Number || k == DynKind::String || k == DynKind::Bytes || k == DynKind::DateTime,
    ensures
        dynamic_route_of(k, k) == DynRoute::Scalars,
{
}

/// A dynamic value compared with a concrete one is compared as it would be
/// with a dynamic value of its own kind, wherever the concrete value can
/// take that form: a boolean, number or string by content, an array with a
/// list element by element, an object with a struct entry by entry; it is
/// never taken as equal without comparing, and it is replaced otherwise.
pub proof fn lemma_mixed_agrees_with_dynamic(k: DynKind, concrete_is_list: bool, concrete_is_struct: bool)
    ensures
        (k == DynKind::Bool || k == DynKind::Number || k == DynKind::String)
            ==> mixed_route_of(k, concrete_is_list, concrete_is_struct) == dynamic_route_of(k, k),
        k == DynKind::Array && concrete_is_list ==> mixed_route_of(k, concrete_is_list, concrete_is_struct) == dynamic_route_of(k, k),
        k == DynKind::Object && concrete_is_struct ==> mixed_route_of(k, concrete_is_list, concrete_is_struct) == dynamic_route_of(k, k),
        mixed_route_of(k, concrete_is_list, concrete_is_struct) != DynRoute::Equal,
        mixed_route_of(k, concrete_is_list, concrete_is_struct) != DynRoute::Replace
            ==> mixed_route_of(k, concrete_is_list, concrete_is_struct) == dynamic_route_of(k, k),
{
}

/// The `from` and `to` sides of a dynamic value compared with a concrete
/// one (or of what was read from each): the dynamic side is `from` unless
/// the two were swapped, when the concrete side is.
pub fn dynamic_sides<T>(swapped: bool, dynamic_side: T, concrete_side: T) -> (r: (T, T))
    ensures
        r == (if swapped { (concrete_side, dynamic_side) } else { (dynamic_side, concrete_side) }),
{
    if swapped {
        (concrete_side, dynamic_side)
    } else {
        (dynamic_side, concrete_side)
    }
}

/// The diff of two values whose comparison ends in a yes or no: equal, or
/// replaced.
pub fn equal_or_replace<P, S>(equal: bool, from: P, to: P) -> (r: Diff<P, S>)
    ensures
        equal ==> r == (Diff::<P, S>::Equal { value: Some(from) }),
        !equal ==> r == (Diff::<P, S>::Replace { from, to }),
{
    if equal {
        Diff::Equal { value: Some(from) }
    } else {
        Diff::Replace { from, to }
    }
}

/// The diff of two sequences, given their updates: equal when every item
/// is unchanged, otherwise the updates with both shapes.
pub fn finish_sequence_diff<P, S>(updates: Updates<P, S>, from_value: P, from: S, to: S) -> (r: Diff<P, S>)
    ensures
        updates_is_empty(updates) ==> r == (Diff::<P, S>::Equal { value: Some(from_value) }),
        !updates_is_empty(updates) ==> r == (Diff::Sequence { from, to, updates }),
{
    if updates.is_empty() {
        Diff::Equal { value: Some(from_value) }
    } else {
        Diff::Sequence { from, to, updates }
    }
}

} // verus!
