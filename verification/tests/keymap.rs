use gitview::keymap::{
    default_table, normalize, parse_key, Action, Key, KeyCode, KeyError, KeyModifiers, Keymap,
    KeymapError,
};

fn key(code: KeyCode, mods: KeyModifiers) -> Key {
    Key { code, mods }
}

fn ctrl() -> KeyModifiers {
    KeyModifiers {
        ctrl: true,
        ..KeyModifiers::none()
    }
}

fn shift() -> KeyModifiers {
    KeyModifiers {
        shift: true,
        ..KeyModifiers::none()
    }
}

fn alt_shift() -> KeyModifiers {
    KeyModifiers {
        alt: true,
        ..shift()
    }
}

#[test]
fn parse_key_round_trips() {
    assert_eq!(
        parse_key("j").unwrap(),
        key(KeyCode::Char('j'), KeyModifiers::none())
    );
    assert_eq!(
        parse_key("enter").unwrap(),
        key(KeyCode::Enter, KeyModifiers::none())
    );
    assert_eq!(
        parse_key("ctrl+d").unwrap(),
        key(KeyCode::Char('d'), ctrl())
    );
    assert_eq!(
        parse_key("alt+shift+left").unwrap(),
        key(KeyCode::Left, alt_shift())
    );
    assert_eq!(
        parse_key("pgdn").unwrap(),
        key(KeyCode::PageDown, KeyModifiers::none())
    );
}

#[test]
fn shift_char_folds_into_uppercase() {
    // shift+g ≡ G: stored as Char('G') with no SHIFT bit
    assert_eq!(
        parse_key("shift+g").unwrap(),
        key(KeyCode::Char('G'), KeyModifiers::none())
    );
    assert_eq!(
        parse_key("G").unwrap(),
        key(KeyCode::Char('G'), KeyModifiers::none())
    );
}

#[test]
fn parse_key_rejects_garbage() {
    assert!(parse_key("").is_err());
    assert!(parse_key("ctrl+").is_err());
    assert!(parse_key("meta+x").is_err());
    assert!(parse_key("f13").is_err());
}

#[test]
fn default_map_resolves_events() {
    let km = Keymap::build(&vec![]).unwrap();
    assert_eq!(
        km.action(key(KeyCode::Char('j'), KeyModifiers::none())),
        Some(Action::Down)
    );
    // terminal reports shift+g as Char('G') with SHIFT set
    assert_eq!(
        km.action(key(KeyCode::Char('G'), shift())),
        Some(Action::Bottom)
    );
    assert_eq!(
        km.action(key(KeyCode::Char('d'), ctrl())),
        Some(Action::HalfPageDown)
    );
    assert_eq!(
        km.action(key(KeyCode::Esc, KeyModifiers::none())),
        Some(Action::Quit)
    );
    assert_eq!(
        km.action(key(KeyCode::Char('z'), KeyModifiers::none())),
        Some(Action::ToggleThread)
    );
    // `y` stands in for "any key nobody bound": it must resolve to
    // nothing rather than to whatever action was added most recently.
    assert_eq!(km.action(key(KeyCode::Char('y'), KeyModifiers::none())), None);
}

#[test]
fn override_replaces_default() {
    let overrides = vec![("stage".to_string(), "o".to_string())];
    let km = Keymap::build(&overrides).unwrap();
    assert_eq!(
        km.action(key(KeyCode::Char('o'), KeyModifiers::none())),
        Some(Action::Stage)
    );
    // old default 's' is gone
    assert_eq!(km.action(key(KeyCode::Char('s'), KeyModifiers::none())), None);
    assert_eq!(km.hint(Action::Stage), "o");
}

#[test]
fn collision_error_names_both_actions() {
    // rebind stage onto 'q', which quit already owns
    let overrides = vec![("stage".to_string(), "q".to_string())];
    let err = Keymap::build(&overrides).unwrap_err().message();
    assert!(err.contains("quit") && err.contains("stage"), "got: {err}");
}

#[test]
fn unknown_override_action_errors() {
    let overrides = vec![("staeg".to_string(), "a".to_string())];
    assert!(Keymap::build(&overrides).is_err());
}

#[test]
fn hint_returns_first_default() {
    let km = Keymap::build(&vec![]).unwrap();
    assert_eq!(km.hint(Action::Down), "j");
    assert_eq!(km.hint(Action::Quit), "q");
    assert_eq!(km.hint(Action::Bottom), "shift+g");
}

#[test]
fn each_refusal_says_what_is_wrong() {
    match parse_key("ctrl+").unwrap_err() {
        KeyError::Empty { text } => assert_eq!(text, "ctrl+"),
        other => panic!("{other:?}"),
    }
    match parse_key("f13").unwrap_err() {
        KeyError::Unknown { key, text } => {
            assert_eq!(key, "f13");
            assert_eq!(text, "f13");
        }
        other => panic!("{other:?}"),
    }
    let bind = |name: &str, key: &str| vec![(name.to_string(), key.to_string())];
    assert!(matches!(
        Keymap::build(&bind("staeg", "a")),
        Err(KeymapError::UnknownAction { .. })
    ));
    assert!(matches!(
        Keymap::build(&bind("stage", "f13")),
        Err(KeymapError::BadKey(_))
    ));
    assert!(matches!(
        Keymap::build(&bind("stage", "q")),
        Err(KeymapError::Clash { .. })
    ));
}

#[test]
fn every_default_key_leads_to_its_action() {
    let km = Keymap::build(&vec![]).unwrap();
    for binding in default_table() {
        for text in &binding.keys {
            let k = parse_key(text).unwrap();
            assert_eq!(normalize(k), k);
            assert_eq!(km.action(k), Some(binding.action), "{text}");
        }
        let first = binding.keys.first().cloned().unwrap_or_default();
        assert_eq!(km.hint(binding.action), first);
    }
}

#[test]
fn the_first_trouble_of_the_table_is_reported() {
    let told = |os: &[(&str, &str)]| {
        let os = os
            .iter()
            .map(|(a, b)| (a.to_string(), b.to_string()))
            .collect();
        Keymap::build(&os).unwrap_err().message()
    };
    assert_eq!(
        told(&[("quit", "nosuch"), ("down", "bogus")]),
        "unknown key 'bogus' in 'bogus'"
    );
    assert_eq!(
        told(&[("quit", "nosuch"), ("up", "j")]),
        "key 'j' bound to both 'down' and 'up'"
    );
}
