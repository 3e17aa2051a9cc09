use velotype::json::JsonValue;
use velotype::theme::{
    builtin_theme_catalog, css_font_weight, custom_theme_file_name, custom_theme_from_value,
    custom_theme_id, CustomThemeEntry, FontWeightDef, Placeholders, ThemeConfigError,
    ThemeManager,
};

fn s(v: &str) -> JsonValue {
    JsonValue::Str(v.to_string())
}

fn obj(entries: Vec<(&str, JsonValue)>) -> JsonValue {
    JsonValue::Object(entries.into_iter().map(|(k, v)| (k.to_string(), v)).collect())
}

fn get<'a>(v: &'a JsonValue, key: &str) -> Option<&'a JsonValue> {
    match v {
        JsonValue::Object(entries) => entries.iter().find(|(k, _)| k == key).map(|(_, v)| v),
        _ => None,
    }
}

#[test]
fn theme_manager_switches_builtin_themes() {
    let mut manager = ThemeManager::new();
    assert_eq!(manager.current_theme_id(), "velotype");
    assert_eq!(
        manager
            .available_themes()
            .iter()
            .map(|entry| entry.name.as_str())
            .collect::<Vec<_>>(),
        vec!["Velotype", "Velotype Light"]
    );

    assert!(manager.set_theme_by_id("velotype-light"));
    assert_eq!(manager.current_theme_id(), "velotype-light");

    assert!(manager.set_theme_by_id("velotype"));
    assert_eq!(manager.current_theme_id(), "velotype");
    assert!(!manager.set_theme_by_id("missing"));
    assert_eq!(manager.current_theme_id(), "velotype");
}

#[test]
fn imports_partial_theme_and_normalizes_it() {
    let defaults = obj(vec![
        ("name", s("Velotype")),
        ("dimensions", obj(vec![
            ("block_gap", JsonValue::Number("8.0".to_string())),
            ("menu_text_size", JsonValue::Number("12.0".to_string())),
        ])),
        ("placeholders", obj(vec![("empty_editing", s("Type here"))])),
    ]);
    let pack = obj(vec![
        ("name", s("Night Writer")),
        ("creator", s("Ada")),
        ("description", s("")),
        ("theme", obj(vec![
            ("dimensions", obj(vec![
                ("block_gap", JsonValue::Number("12.0".to_string())),
                ("menu_text_size", JsonValue::Null),
                ("unknown", JsonValue::Bool(true)),
            ])),
            ("placeholders", obj(vec![("empty_editing", s(""))])),
        ])),
    ]);
    let imported = custom_theme_from_value(pack, &defaults).expect("theme config should import");
    assert_eq!(imported.entry.id, "custom:Night_Writer_Ada");
    assert_eq!(imported.entry.name, "Night Writer");
    assert_eq!(imported.entry.creator, "Ada");
    assert_eq!(get(&imported.theme, "name"), Some(&s("Night Writer")));
    let dims = get(&imported.theme, "dimensions").unwrap();
    assert_eq!(get(dims, "block_gap"), Some(&JsonValue::Number("12.0".to_string())));
    assert_eq!(get(dims, "menu_text_size"), Some(&JsonValue::Number("12.0".to_string())));
    assert_eq!(get(&imported.normalized, "name"), Some(&s("Night Writer")));
    assert_eq!(get(&imported.normalized, "creator"), Some(&s("Ada")));
    assert!(get(&imported.normalized, "description").is_none());
    let stored_theme = get(&imported.normalized, "theme").unwrap();
    let stored_dims = get(stored_theme, "dimensions").unwrap();
    assert_eq!(get(stored_dims, "block_gap"), Some(&JsonValue::Number("12.0".to_string())));
    assert!(get(stored_dims, "menu_text_size").is_none());
    assert!(get(stored_dims, "unknown").is_none());
    assert!(get(stored_theme, "placeholders").is_none());
    assert_eq!(custom_theme_file_name("Night Writer", "Ada"), "Night_Writer_Ada.json");

    let mut manager = ThemeManager::new();
    let id = manager.import_custom_theme(imported.entry);
    assert_eq!(manager.current_theme_id(), id);
    assert!(manager
        .available_themes()
        .iter()
        .any(|entry| entry.id == id && entry.name == "Night Writer - Ada"));
}

#[test]
fn theme_pack_errors() {
    let defaults = obj(vec![("name", s("Velotype"))]);
    assert!(matches!(
        custom_theme_from_value(s("x"), &defaults),
        Err(ThemeConfigError::NotAnObject)
    ));
    assert!(matches!(
        custom_theme_from_value(obj(vec![("creator", s("Ada"))]), &defaults),
        Err(ThemeConfigError::MissingField(k)) if k == "name"
    ));
    assert!(matches!(
        custom_theme_from_value(
            obj(vec![("name", s("N")), ("creator", JsonValue::Bool(true))]),
            &defaults
        ),
        Err(ThemeConfigError::NotANonEmptyString(k)) if k == "creator"
    ));
    assert!(matches!(
        custom_theme_from_value(
            obj(vec![("name", s("N")), ("creator", s("C")), ("theme", s("dark"))]),
            &defaults
        ),
        Err(ThemeConfigError::ThemeNotAnObject)
    ));
    assert_eq!(
        ThemeConfigError::MissingField("name".to_string()).message(),
        "missing required field 'name'"
    );
}

#[test]
fn reimporting_replaces_the_theme() {
    let mut manager = ThemeManager::new();
    let entry = |name: &str| CustomThemeEntry {
        id: custom_theme_id("Pack", "Ada"),
        name: name.to_string(),
        creator: "Ada".to_string(),
    };
    manager.upsert_custom_theme(entry("Pack"));
    manager.upsert_custom_theme(entry("Pack 2"));
    assert_eq!(manager.available_themes().len(), 3);
    assert_eq!(manager.available_themes()[2].name, "Pack 2 - Ada");
    assert!(manager.set_theme_by_id("custom:Pack_Ada"));
    manager.reset();
    assert_eq!(manager.current_theme_id(), "velotype");
}

#[test]
fn loaded_theme_names_map_to_ids() {
    let mut manager = ThemeManager::new();
    manager.set_theme("Velotype Light");
    assert_eq!(manager.current_theme_id(), "velotype-light");
    manager.set_theme("Other");
    assert_eq!(manager.current_theme_id(), "custom");
}

#[test]
fn font_weights_map_to_css_numbers() {
    assert_eq!(css_font_weight(&FontWeightDef::Thin), 100);
    assert_eq!(css_font_weight(&FontWeightDef::Semibold), 600);
    assert_eq!(css_font_weight(&FontWeightDef::Black), 900);
}

#[test]
fn builtin_catalog_lists_two_themes() {
    let catalog = builtin_theme_catalog();
    assert_eq!(catalog.len(), 2);
    assert_eq!(catalog[0].id, "velotype");
    assert_eq!(catalog[1].id, "velotype-light");
    let placeholders = Placeholders { empty_editing: "Type".to_string() };
    assert_eq!(placeholders.empty_editing, "Type");
}

#[test]
fn stored_themes_load_sorted_by_name_then_creator() {
    let entry = |name: &str, creator: &str| CustomThemeEntry {
        id: custom_theme_id(name, creator),
        name: name.to_string(),
        creator: creator.to_string(),
    };
    let mut manager = ThemeManager::new();
    manager.load_custom_themes(vec![entry("b", "x"), entry("a", "z"), entry("a", "y")]);
    let names: Vec<String> = manager
        .available_themes()
        .iter()
        .map(|e| e.name.clone())
        .collect();
    assert_eq!(
        names,
        vec!["Velotype", "Velotype Light", "a - y", "a - z", "b - x"]
    );
}

#[test]
fn default_manager_shows_the_dark_theme() {
    let manager = ThemeManager::default();
    assert_eq!(manager.current_theme_id(), "velotype");
    assert_eq!(manager.available_themes().len(), 2);
}

#[test]
fn theme_values_of_another_kind_than_the_defaults_are_refused() {
    let defaults = obj(vec![
        ("name", s("Velotype")),
        ("dimensions", obj(vec![("block_gap", JsonValue::Number("8.0".to_string()))])),
        ("code_font", JsonValue::Null),
    ]);
    let pack = |theme: JsonValue| {
        obj(vec![("name", s("Night")), ("creator", s("Ada")), ("theme", theme)])
    };
    let bad = pack(obj(vec![("dimensions", obj(vec![("block_gap", s("wide"))]))]));
    let err = custom_theme_from_value(bad, &defaults).err().expect("wrong kind");
    assert!(matches!(&err, ThemeConfigError::InvalidTheme(n) if n == "Night"));
    assert_eq!(err.message(), "failed to construct custom theme 'Night'");
    let not_object = pack(obj(vec![("dimensions", JsonValue::Number("3".to_string()))]));
    assert!(matches!(
        custom_theme_from_value(not_object, &defaults),
        Err(ThemeConfigError::InvalidTheme(_))
    ));
    let optional = pack(obj(vec![("code_font", s("Iosevka"))]));
    assert!(custom_theme_from_value(optional, &defaults).is_ok());
}
