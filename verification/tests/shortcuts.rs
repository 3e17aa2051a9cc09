use velotype::shortcuts::{
    normalize_shortcut_config, normalize_shortcut_keys, resolved_keybindings,
    resolved_shortcut_keys, shortcut_conflict_for, shortcut_definition, shortcut_definitions,
    ShortcutCategory, ShortcutCommand, SHORTCUT_COUNT,
};

fn parsed(keys: &[&str]) -> Vec<Option<String>> {
    keys.iter().map(|k| Some(k.to_string())).collect()
}

fn config(entries: &[(&str, Vec<Option<String>>)]) -> Vec<(String, Vec<Option<String>>)> {
    entries.iter().map(|(id, keys)| (id.to_string(), keys.clone())).collect()
}

fn strings(items: &[&str]) -> Vec<String> {
    items.iter().map(|s| s.to_string()).collect()
}

#[test]
fn custom_shortcut_replaces_command_defaults() {
    let config = config(&[("save_document", parsed(&["ctrl-alt-s"]))]);
    assert_eq!(
        resolved_shortcut_keys(&config, ShortcutCommand::SaveDocument),
        strings(&["ctrl-alt-s"])
    );
}

#[test]
fn invalid_or_empty_shortcuts_fall_back_to_defaults() {
    // An empty key and a bare letter are both refused by the key parser.
    let config = config(&[("save_document", vec![None]), ("open_file", vec![None])]);
    let normalized = normalize_shortcut_config(&config);
    assert!(normalized[ShortcutCommand::SaveDocument.index()].is_none());
    assert!(normalized[ShortcutCommand::OpenFile.index()].is_none());
}

#[test]
fn conflicting_custom_shortcut_falls_back_to_default() {
    let config = config(&[("copy", parsed(&["ctrl-x"]))]);
    let normalized = normalize_shortcut_config(&config);
    assert!(normalized[ShortcutCommand::Copy.index()].is_none());
    assert_eq!(
        resolved_shortcut_keys(&config, ShortcutCommand::Copy),
        strings(&["cmd-c", "ctrl-c"])
    );
}

#[test]
fn detects_shortcut_conflicts_for_preferences_drafts() {
    let conflict = shortcut_conflict_for(ShortcutCommand::Copy, &parsed(&["ctrl-x"]), &[])
        .expect("copy should conflict with cut");
    assert_eq!(conflict.id(), "cut");
}

#[test]
fn keys_are_deduplicated_and_refused_when_empty_or_unparsed() {
    assert_eq!(
        normalize_shortcut_keys(&parsed(&["ctrl-a", "cmd-a", "ctrl-a"])),
        Some(strings(&["ctrl-a", "cmd-a"]))
    );
    assert_eq!(normalize_shortcut_keys(&[]), None);
    assert_eq!(normalize_shortcut_keys(&[Some("ctrl-a".to_string()), None]), None);
}

#[test]
fn override_equal_to_defaults_is_not_kept() {
    let config = config(&[("undo", parsed(&["cmd-z", "ctrl-z"]))]);
    assert!(normalize_shortcut_config(&config)[ShortcutCommand::Undo.index()].is_none());
}

#[test]
fn swapped_overrides_both_fall_back_when_they_clash() {
    // Two overrides that take the same key both fall back.
    let config = config(&[
        ("bold_selection", parsed(&["ctrl-k"])),
        ("italic_selection", parsed(&["ctrl-k"])),
    ]);
    let normalized = normalize_shortcut_config(&config);
    assert!(normalized.iter().all(|o| o.is_none()));
}

#[test]
fn contexts_are_separate() {
    // A global command may take a key that a block command uses.
    let config = config(&[("save_document", parsed(&["enter"]))]);
    let normalized = normalize_shortcut_config(&config);
    assert_eq!(
        normalized[ShortcutCommand::SaveDocument.index()],
        Some(strings(&["enter"]))
    );
    assert_eq!(shortcut_conflict_for(ShortcutCommand::OpenFile, &parsed(&["enter"]), &config)
        .map(|c| c.id()), Some("save_document"));
}

#[test]
fn definition_table_is_complete() {
    let defs = shortcut_definitions();
    assert_eq!(defs.len(), SHORTCUT_COUNT);
    assert_eq!(defs[0].id, "newline");
    assert_eq!(defs[0].context, Some("BlockEditor"));
    assert_eq!(defs[SHORTCUT_COUNT - 1].id, "dismiss_transient_ui");
    assert_eq!(defs[SHORTCUT_COUNT - 1].context, None);
    assert_eq!(defs[SHORTCUT_COUNT - 1].category, ShortcutCategory::Other);
    let save = shortcut_definition(ShortcutCommand::SaveDocument);
    assert_eq!(save.id, "save_document");
    assert_eq!(ShortcutCommand::CodeSelection.default_keys(), strings(&["cmd-`", "ctrl-`"]));
}

#[test]
fn keybindings_cover_every_key_in_force() {
    let bindings = resolved_keybindings(&[]);
    let total: usize = (0..SHORTCUT_COUNT)
        .map(|i| ShortcutCommand::at(i).default_keys().len())
        .sum();
    assert_eq!(bindings.len(), total);
    assert_eq!(bindings[0].command, ShortcutCommand::Newline);
    assert_eq!(bindings[0].key, "enter");
    assert_eq!(bindings[0].context, Some("BlockEditor"));
}

#[test]
fn normalizing_the_normalized_overrides_changes_nothing() {
    let config = config(&[
        ("save_document", parsed(&["ctrl-alt-s", "ctrl-alt-s", "alt-s"])),
        ("undo", parsed(&["ctrl-alt-s"])),
        ("copy", vec![None]),
        ("no_such_command", parsed(&["f5"])),
        ("open_file", parsed(&["ctrl-shift-o"])),
    ]);
    let normalized = normalize_shortcut_config(&config);
    let again_config: Vec<(String, Vec<Option<String>>)> = normalized
        .iter()
        .enumerate()
        .filter_map(|(i, keys)| {
            keys.as_ref().map(|keys| {
                (
                    ShortcutCommand::at(i).id().to_string(),
                    keys.iter().map(|k| Some(k.clone())).collect(),
                )
            })
        })
        .collect();
    assert_eq!(normalize_shortcut_config(&again_config), normalized);
    let open = ShortcutCommand::OpenFile.index();
    assert_eq!(normalized[open], Some(strings(&["ctrl-shift-o"])));
    assert_eq!(normalized[ShortcutCommand::Copy.index()], None);
}
