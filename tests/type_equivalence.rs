use wepl::types::{types_equal, type_defs_equal, Case, Field, TypeDefKind, WitType};

fn field(name: &str, ty: WitType) -> Field {
    Field { name: name.to_string(), ty }
}

fn case(name: &str, ty: Option<WitType>) -> Case {
    Case { name: name.to_string(), ty }
}

#[test]
fn primitives_equal_only_to_themselves() {
    let u: Vec<TypeDefKind> = vec![];
    assert!(types_equal(&u, WitType::U32, &u, WitType::U32));
    assert!(types_equal(&u, WitType::Str, &u, WitType::Str));
    assert!(!types_equal(&u, WitType::U32, &u, WitType::U64));
    assert!(!types_equal(&u, WitType::Char, &u, WitType::Str));
}

#[test]
fn records_from_different_tables_are_structurally_equal() {
    let u1 = vec![TypeDefKind::Record(vec![field("x", WitType::U32), field("y", WitType::Str)])];
    let u2 = vec![
        TypeDefKind::List(WitType::U8),
        TypeDefKind::Record(vec![field("x", WitType::U32), field("y", WitType::Str)]),
    ];
    assert!(types_equal(&u1, WitType::Id(0), &u2, WitType::Id(1)));
    assert!(types_equal(&u2, WitType::Id(1), &u1, WitType::Id(0)));
    assert!(!types_equal(&u1, WitType::Id(0), &u2, WitType::Id(0)));
}

#[test]
fn record_field_name_or_count_difference_is_unequal() {
    let u1 = vec![TypeDefKind::Record(vec![field("x", WitType::U32)])];
    let renamed = vec![TypeDefKind::Record(vec![field("z", WitType::U32)])];
    let longer = vec![TypeDefKind::Record(vec![field("x", WitType::U32), field("y", WitType::U32)])];
    assert!(!types_equal(&u1, WitType::Id(0), &renamed, WitType::Id(0)));
    assert!(!types_equal(&u1, WitType::Id(0), &longer, WitType::Id(0)));
}

#[test]
fn alias_is_transparent_on_either_side() {
    let plain = vec![TypeDefKind::List(WitType::U8)];
    let aliased = vec![TypeDefKind::List(WitType::U8), TypeDefKind::Alias(WitType::Id(0))];
    let prim_alias = vec![TypeDefKind::Alias(WitType::U32)];
    assert!(types_equal(&aliased, WitType::Id(1), &plain, WitType::Id(0)));
    assert!(types_equal(&plain, WitType::Id(0), &aliased, WitType::Id(1)));
    assert!(types_equal(&aliased, WitType::Id(1), &aliased, WitType::Id(1)));
    assert!(types_equal(&prim_alias, WitType::Id(0), &plain, WitType::U32));
    assert!(types_equal(&plain, WitType::U32, &prim_alias, WitType::Id(0)));
    assert!(!types_equal(&prim_alias, WitType::Id(0), &plain, WitType::U64));
}

#[test]
fn identifier_of_compound_type_is_not_a_primitive() {
    let u = vec![TypeDefKind::List(WitType::U8)];
    assert!(!types_equal(&u, WitType::Id(0), &u, WitType::U8));
    assert!(!types_equal(&u, WitType::U8, &u, WitType::Id(0)));
}

#[test]
fn variant_case_names_and_payloads() {
    let u1 = vec![TypeDefKind::Variant(vec![case("a", Some(WitType::U32)), case("b", None)])];
    let same = vec![TypeDefKind::Variant(vec![case("a", Some(WitType::U32)), case("b", None)])];
    let renamed = vec![TypeDefKind::Variant(vec![case("a", Some(WitType::U32)), case("c", None)])];
    let payload = vec![TypeDefKind::Variant(vec![case("a", Some(WitType::U32)), case("b", Some(WitType::U8))])];
    let fewer = vec![TypeDefKind::Variant(vec![case("a", Some(WitType::U32))])];
    assert!(types_equal(&u1, WitType::Id(0), &same, WitType::Id(0)));
    assert!(!types_equal(&u1, WitType::Id(0), &renamed, WitType::Id(0)));
    assert!(!types_equal(&u1, WitType::Id(0), &payload, WitType::Id(0)));
    assert!(!types_equal(&u1, WitType::Id(0), &fewer, WitType::Id(0)));
}

#[test]
fn nested_difference_is_found() {
    let u1 = vec![
        TypeDefKind::Variant(vec![case("a", None)]),
        TypeDefKind::List(WitType::Id(0)),
        TypeDefKind::ResultOf(Some(WitType::Id(1)), None),
    ];
    let u2 = vec![
        TypeDefKind::Variant(vec![case("b", None)]),
        TypeDefKind::List(WitType::Id(0)),
        TypeDefKind::ResultOf(Some(WitType::Id(1)), None),
    ];
    assert!(types_equal(&u1, WitType::Id(2), &u1, WitType::Id(2)));
    assert!(!types_equal(&u1, WitType::Id(2), &u2, WitType::Id(2)));
}

#[test]
fn result_option_tuple_enum_flags() {
    let u1 = vec![
        TypeDefKind::ResultOf(Some(WitType::U32), None),
        TypeDefKind::OptionOf(WitType::Str),
        TypeDefKind::Tuple(vec![WitType::U8, WitType::Bool]),
        TypeDefKind::Enum(vec!["red".to_string(), "green".to_string()]),
        TypeDefKind::Flags(vec!["read".to_string()]),
    ];
    let u2 = vec![
        TypeDefKind::ResultOf(None, None),
        TypeDefKind::OptionOf(WitType::Str),
        TypeDefKind::Tuple(vec![WitType::U8]),
        TypeDefKind::Enum(vec!["red".to_string(), "blue".to_string()]),
        TypeDefKind::Flags(vec!["read".to_string()]),
    ];
    assert!(!type_defs_equal(&u1, 0, &u2, 0));
    assert!(type_defs_equal(&u1, 1, &u2, 1));
    assert!(!type_defs_equal(&u1, 2, &u2, 2));
    assert!(!type_defs_equal(&u1, 3, &u2, 3));
    assert!(type_defs_equal(&u1, 4, &u2, 4));
    assert!(!type_defs_equal(&u1, 1, &u2, 2));
    assert!(type_defs_equal(&u1, 0, &u1, 0));
}

#[test]
fn handles_compare_resources_by_name() {
    let u1 = vec![TypeDefKind::Resource("file".to_string()), TypeDefKind::Own(0), TypeDefKind::Borrow(0)];
    let u2 = vec![
        TypeDefKind::List(WitType::U8),
        TypeDefKind::Resource("file".to_string()),
        TypeDefKind::Own(1),
        TypeDefKind::Resource("socket".to_string()),
        TypeDefKind::Own(3),
    ];
    assert!(types_equal(&u1, WitType::Id(1), &u2, WitType::Id(2)));
    assert!(!types_equal(&u1, WitType::Id(2), &u2, WitType::Id(2)));
    assert!(!types_equal(&u1, WitType::Id(1), &u2, WitType::Id(4)));
}
