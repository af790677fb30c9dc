use niri_glue::layout::{Event, KeyboardLayouts, Layout, LayoutRunner};
use niri_glue::{parse_key_val, Format};

fn runner(aliases: &[(&str, &str)]) -> LayoutRunner {
    let config = Layout {
        aliases: aliases
            .iter()
            .map(|(k, v)| (k.to_string(), v.to_string()))
            .collect(),
    };
    LayoutRunner::new(config, Format::Waybar)
}

#[test]
fn alias_hint_entry_wins() {
    // The alias hint's table entry beats the full name's entry.
    let r = runner(&[("english", "X"), ("en", "US")]);
    assert_eq!(r.alias_layout("English (en)"), "US");
}

#[test]
fn alias_hint_verbatim_without_entries() {
    let r = runner(&[("other", "Y")]);
    assert_eq!(r.alias_layout("English (en)"), "en");
}

#[test]
fn plain_name_unchanged_without_entry() {
    let r = runner(&[]);
    assert_eq!(r.alias_layout("French"), "French");
}

#[test]
fn plain_name_mapped_with_entry() {
    let r = runner(&[("french", "FR")]);
    assert_eq!(r.alias_layout("French"), "FR");
}

#[test]
fn lookup_is_case_insensitive() {
    let r = runner(&[("EN", "US")]);
    assert_eq!(r.alias_layout("English (en)"), "US");
    assert_eq!(r.alias_layout("English (En)"), "US");
    assert_eq!(r.alias_layout("English (EN)"), "US");
}

#[test]
fn full_name_entry_used_when_hint_has_none() {
    let r = runner(&[("english", "GB")]);
    assert_eq!(r.alias_layout("English (en)"), "GB");
}

#[test]
fn empty_parenthesis_counts_as_no_hint() {
    let r = runner(&[("russian", "RU")]);
    assert_eq!(r.alias_layout("Russian ()"), "RU");
    let r = runner(&[]);
    assert_eq!(r.alias_layout("Russian ()"), "Russian");
}

#[test]
fn unparsable_name_is_returned_unchanged() {
    let r = runner(&[("a", "b")]);
    assert_eq!(r.alias_layout("two words here"), "two words here");
    assert_eq!(r.alias_layout(""), "");
    assert_eq!(r.alias_layout("  leading"), "  leading");
}

#[test]
fn later_alias_definition_wins() {
    let r = runner(&[("en", "first"), ("en", "second")]);
    assert_eq!(r.alias_layout("English (en)"), "second");
}

#[test]
fn scenario_layouts_changed_with_alias() {
    let mut r = runner(&[("en", "US")]);
    let out = r.process_event(Event::KeyboardLayoutsChanged {
        keyboard_layouts: KeyboardLayouts {
            names: vec!["English (en)".to_string(), "Russian".to_string()],
            current_idx: 0,
        },
    });
    assert_eq!(out.as_deref(), Some("{ \"text\": \"US\", \"class\": \"layout\" }"));
}

#[test]
fn scenario_layouts_changed_without_aliases() {
    let mut r = runner(&[]);
    let out = r.process_event(Event::KeyboardLayoutsChanged {
        keyboard_layouts: KeyboardLayouts {
            names: vec!["French".to_string()],
            current_idx: 0,
        },
    });
    assert_eq!(out.as_deref(), Some("{ \"text\": \"French\", \"class\": \"layout\" }"));
}

#[test]
fn scenario_out_of_range_switch_is_ignored() {
    let mut r = runner(&[]);
    let out = r.process_event(Event::KeyboardLayoutsChanged {
        keyboard_layouts: KeyboardLayouts {
            names: vec!["A".to_string(), "B".to_string()],
            current_idx: 1,
        },
    });
    assert_eq!(out.as_deref(), Some("{ \"text\": \"B\", \"class\": \"layout\" }"));
    let out = r.process_event(Event::KeyboardLayoutSwitched { idx: 5 });
    assert_eq!(out, None);
    assert_eq!(r.layouts.current_idx, 1);
    assert_eq!(r.layouts.names, vec!["A".to_string(), "B".to_string()]);
}

#[test]
fn layouts_changed_replaces_prior_sequence() {
    let mut r = runner(&[]);
    r.process_event(Event::KeyboardLayoutsChanged {
        keyboard_layouts: KeyboardLayouts {
            names: vec!["Old0".to_string(), "Old1".to_string(), "Old2".to_string()],
            current_idx: 2,
        },
    });
    let out = r.process_event(Event::KeyboardLayoutsChanged {
        keyboard_layouts: KeyboardLayouts {
            names: vec!["New0".to_string(), "New1".to_string()],
            current_idx: 1,
        },
    });
    assert_eq!(out.as_deref(), Some("{ \"text\": \"New1\", \"class\": \"layout\" }"));
    assert_eq!(r.layouts.names, vec!["New0".to_string(), "New1".to_string()]);
    let out = r.process_event(Event::KeyboardLayoutSwitched { idx: 2 });
    assert_eq!(out, None);
    assert_eq!(r.layouts.current_idx, 1);
}

#[test]
fn changed_embedded_index_out_of_range_emits_nothing() {
    let mut r = runner(&[]);
    let out = r.process_event(Event::KeyboardLayoutsChanged {
        keyboard_layouts: KeyboardLayouts {
            names: vec!["Only".to_string()],
            current_idx: 3,
        },
    });
    assert_eq!(out, None);
    assert_eq!(r.layouts.names, vec!["Only".to_string()]);
    assert_eq!(r.layouts.current_idx, 0);
}

#[test]
fn switched_selects_in_range_index() {
    let mut r = runner(&[]);
    r.process_event(Event::KeyboardLayoutsChanged {
        keyboard_layouts: KeyboardLayouts {
            names: vec!["A".to_string(), "B".to_string()],
            current_idx: 0,
        },
    });
    let out = r.process_event(Event::KeyboardLayoutSwitched { idx: 1 });
    assert_eq!(out.as_deref(), Some("{ \"text\": \"B\", \"class\": \"layout\" }"));
    assert_eq!(r.layouts.current_idx, 1);
}

#[test]
fn other_events_are_ignored() {
    let mut r = runner(&[]);
    r.process_event(Event::KeyboardLayoutsChanged {
        keyboard_layouts: KeyboardLayouts {
            names: vec!["A".to_string()],
            current_idx: 0,
        },
    });
    let out = r.process_event(Event::Other);
    assert_eq!(out, None);
    assert_eq!(r.layouts.names, vec!["A".to_string()]);
    assert_eq!(r.layouts.current_idx, 0);
}

#[test]
fn new_runner_starts_empty() {
    let mut r = runner(&[("en", "US")]);
    assert_eq!(r.layouts.names.len(), 0);
    assert_eq!(r.layouts.current_idx, 0);
    let out = r.process_event(Event::KeyboardLayoutSwitched { idx: 0 });
    assert_eq!(out, None);
}

#[test]
fn lowercasing_happens_at_construction() {
    // A key supplied in upper case must match a lower-case hint; if the
    // stored key were kept verbatim, this lookup would miss.
    let r = runner(&[("RUSSIAN", "RU")]);
    assert_eq!(r.alias_layout("russian"), "RU");
}

#[test]
fn changed_resolves_every_incoming_name() {
    let mut r = runner(&[("ru", "RU")]);
    let out = r.process_event(Event::KeyboardLayoutsChanged {
        keyboard_layouts: KeyboardLayouts {
            names: vec!["English (en)".to_string(), "Russian (ru)".to_string()],
            current_idx: 1,
        },
    });
    assert_eq!(out.as_deref(), Some("{ \"text\": \"RU\", \"class\": \"layout\" }"));
    assert_eq!(r.layouts.names, vec!["en".to_string(), "RU".to_string()]);
    assert_eq!(r.layouts.current_idx, 1);
}

#[test]
fn args_model_holds_configuration() {
    let args = niri_glue::Args {
        command: niri_glue::Command::Layout(Layout {
            aliases: vec![("en".to_string(), "US".to_string())],
        }),
        path: Some("/run/user/1000/niri.sock".to_string()),
        format: Format::Waybar,
    };
    assert_eq!(args.format, Format::Waybar);
    match args.command {
        niri_glue::Command::Layout(l) => assert_eq!(l.aliases.len(), 1),
        _ => panic!("wrong command"),
    }
}

#[test]
fn parse_key_val_splits_at_first_separator() {
    let kv = parse_key_val("en=US").unwrap();
    assert_eq!(kv, ("en".to_string(), "US".to_string()));
    let kv = parse_key_val("a=b=c").unwrap();
    assert_eq!(kv, ("a".to_string(), "b=c".to_string()));
    let kv = parse_key_val("=v").unwrap();
    assert_eq!(kv, ("".to_string(), "v".to_string()));
}

#[test]
fn parse_key_val_rejects_missing_separator() {
    let err = parse_key_val("nosep").unwrap_err();
    assert_eq!(err.input, "nosep");
    assert_eq!(
        err.message(),
        "invalid KEY=value: no `=` found in `nosep`"
    );
}
