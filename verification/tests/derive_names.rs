use vizia_core::derive::lens::{
    char_has_case, derive_lens_impl, derive_struct, field_tag, is_camel_case, root_tag,
    to_snake_case, DataKind, DeriveError, DeriveInput, Field, FieldKind,
};

#[test]
fn characters_with_and_without_case() {
    assert!(char_has_case('a'));
    assert!(char_has_case('Z'));
    assert!(char_has_case('\u{e9}'));
    assert!(!char_has_case('_'));
    assert!(!char_has_case('7'));
    assert!(!char_has_case('\u{4e2d}'));
}

#[test]
fn camel_case_is_told_from_other_cases() {
    for name in ["AppData", "A", "_AppData_", "__", "", "App1Data", "\u{4e2d}Data", "X9"] {
        assert!(is_camel_case(name), "{:?}", name);
    }
    for name in ["appData", "app_data", "App_Data", "A__B", "App_", "_app", "A_1b", "Ab_9"] {
        let expected = matches!(name, "App_");
        assert_eq!(is_camel_case(name), expected, "{:?}", name);
    }
    assert!(!is_camel_case("A_b"));
    assert!(is_camel_case("A9_9"));
    assert!(!is_camel_case("9__9"));
}

#[test]
fn names_are_put_into_snake_case() {
    assert_eq!(to_snake_case("AppData"), "app_data");
    assert_eq!(to_snake_case("appData"), "app_data");
    assert_eq!(to_snake_case("HTTPServer"), "httpserver");
    assert_eq!(to_snake_case("ABc"), "abc");
    assert_eq!(to_snake_case("aB"), "a_b");
    assert_eq!(to_snake_case("App_Data"), "app_data");
    assert_eq!(to_snake_case("App__Data_"), "app_data");
    assert_eq!(to_snake_case("_AppData"), "_app_data");
    assert_eq!(to_snake_case("__X"), "__x");
    assert_eq!(to_snake_case("__"), "_");
    assert_eq!(to_snake_case("_"), "");
    assert_eq!(to_snake_case(""), "");
    assert_eq!(to_snake_case("'A"), "'a");
    assert_eq!(to_snake_case("x'A"), "x'_a");
    assert_eq!(to_snake_case("\u{130}x"), "i\u{307}x");
    assert_eq!(to_snake_case("TextData2"), "text_data2");
}

fn field(name: &str, ty: &str) -> Field {
    Field { name: name.to_string(), ty: ty.to_string(), ignore: false, lens_name_override: None }
}

fn app_data() -> DeriveInput {
    DeriveInput {
        ident: "AppData".to_string(),
        data: DataKind::Struct,
        kind: FieldKind::Named,
        fields: vec![
            field("list", "Vec<String>"),
            Field { ignore: true, ..field("cache", "Cache") },
            Field { lens_name_override: Some("chosen".to_string()), ..field("selected", "usize") },
        ],
        type_params: vec!["T".to_string()],
    }
}

#[test]
fn one_lens_is_planned_for_each_field_that_is_kept() {
    let plan = match derive_lens_impl(&app_data()) {
        Ok(plan) => plan,
        Err(error) => panic!("{}", error.message()),
    };
    assert_eq!(plan.source, "AppData");
    assert_eq!(plan.module, "app_data_derived_lenses");
    assert_eq!(plan.mod_docs, "Derived lenses for [`AppData`].");
    assert_eq!(plan.type_params, vec!["T".to_string()]);
    assert_eq!(plan.lenses.len(), 2);
    assert_eq!(plan.lenses[0].place, 0);
    assert_eq!(plan.lenses[1].place, 2);
    assert_eq!(plan.lenses[0].field, "list");
    assert_eq!(plan.lenses[0].target, "Vec<String>");
    assert_eq!(plan.lenses[0].constant, "list");
    assert_eq!(
        plan.lenses[0].struct_docs,
        "Lens for the field `list` on [`AppData`](super::AppData)."
    );
    assert_eq!(
        plan.lenses[0].fn_docs,
        "Creates a new lens for the field `list` on [`AppData`](super::AppData). \
         Use [`AppData::list`](super::AppData::list) instead."
    );
    assert_eq!(plan.lenses[1].field, "selected");
    assert_eq!(plan.lenses[1].target, "usize");
    assert_eq!(plan.lenses[1].constant, "chosen");
}

#[test]
fn types_that_get_no_lenses() {
    let enumeration = DeriveInput { data: DataKind::Enum, ..app_data() };
    assert_eq!(derive_lens_impl(&enumeration).err(), Some(DeriveError::Enum));
    assert_eq!(derive_struct(&enumeration).err(), Some(DeriveError::UnnamedFields));
    let union = DeriveInput { data: DataKind::Union, ..app_data() };
    assert_eq!(derive_lens_impl(&union).err(), Some(DeriveError::Union));
    let tuple = DeriveInput { kind: FieldKind::Unnamed, ..app_data() };
    assert_eq!(derive_lens_impl(&tuple).err(), Some(DeriveError::UnnamedFields));
    let unit = DeriveInput { kind: FieldKind::Unit, fields: vec![], ..app_data() };
    assert_eq!(derive_lens_impl(&unit).err(), Some(DeriveError::UnnamedFields));
    let lower = DeriveInput { ident: "app_data".to_string(), ..app_data() };
    assert_eq!(derive_lens_impl(&lower).err(), Some(DeriveError::NotCamelCase));

    assert_eq!(
        DeriveError::Enum.message(),
        "Lens implementations cannot be derived from enums"
    );
    assert_eq!(
        DeriveError::Union.message(),
        "Lens implementations cannot be derived from unions"
    );
    assert_eq!(
        DeriveError::UnnamedFields.message(),
        "Lens implementations can only be derived from structs with named fields"
    );
    assert_eq!(
        DeriveError::NotCamelCase.message(),
        "Lens implementations can only be derived from CamelCase types"
    );
}

#[test]
fn struct_without_fields_gets_only_its_module() {
    let empty = DeriveInput { fields: vec![], type_params: vec![], ..app_data() };
    let plan = derive_struct(&empty).ok().unwrap();
    assert!(plan.lenses.is_empty());
    assert!(plan.type_params.is_empty());
    assert_eq!(plan.module, "app_data_derived_lenses");
}

#[test]
fn derived_lenses_have_tags_of_their_own() {
    assert_eq!(field_tag(7, 0), vec![7, 0]);
    assert_eq!(field_tag(7, 3), vec![7, 3]);
    assert_eq!(root_tag(7), vec![7]);
    assert_ne!(field_tag(7, 0), root_tag(7));
    assert_ne!(field_tag(7, 0), field_tag(7, 1));
    assert_ne!(field_tag(7, 0), field_tag(8, 0));
}
