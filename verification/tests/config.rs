use gitview::config::{Config, ListSide, ScopePref, Theme};

/// Reads a settings file: what it sets, over the defaults.
fn read(text: &str) -> Config {
    let table: toml::Table = match toml::from_str(text) {
        Ok(table) => table,
        Err(_) => return Config::parse(None),
    };
    let mut cfg = Config::default();
    for (name, value) in &table {
        let number = value.as_integer().unwrap_or(0);
        let word = value.as_str().unwrap_or("");
        match name.as_str() {
            "list_side" => {
                cfg.list_side = if word == "left" {
                    ListSide::Left
                } else {
                    ListSide::Right
                }
            }
            "default_scope" => {
                cfg.default_scope = if word == "branch" {
                    ScopePref::Branch
                } else {
                    ScopePref::Worktree
                }
            }
            "poll_ms" => cfg.poll_ms = number as u64,
            "fetch_interval_ms" => cfg.fetch_interval_ms = number as u64,
            "view_width_percent" => cfg.view_width_percent = number as u8,
            "list_width_percent" => cfg.list_width_percent = number as u8,
            "tab_width" => cfg.tab_width = number as usize,
            "context_lines" => cfg.context_lines = number as usize,
            "keybindings" => {
                for (action, key) in value.as_table().unwrap() {
                    cfg.keybindings
                        .push((action.clone(), key.as_str().unwrap().to_string()));
                }
            }
            other => panic!("{other}"),
        }
    }
    Config::parse(Some(cfg))
}

#[test]
fn empty_file_gives_defaults() {
    let cfg = read("");
    assert_eq!(cfg.list_side, ListSide::Right);
    assert_eq!(cfg.editor, vec!["nvim".to_string()]);
    assert_eq!(cfg.poll_ms, 2000);
    assert!(cfg.show_untracked);
    assert!(cfg.base.is_empty());
    assert!(cfg.keybindings.is_empty());
}

#[test]
fn partial_file_keeps_other_defaults() {
    let cfg = read(
        r#"
        list_side = "left"

        [keybindings]
        stage = "a"
        "#,
    );
    assert_eq!(cfg.list_side, ListSide::Left);
    assert_eq!(cfg.editor, vec!["nvim".to_string()]); // untouched default
    assert_eq!(
        cfg.keybindings
            .iter()
            .find(|(name, _)| name == "stage")
            .map(|(_, key)| key.as_str()),
        Some("a")
    );
}

#[test]
fn bad_toml_falls_back_to_defaults() {
    let cfg = read("list_side = [not toml");
    assert_eq!(cfg.list_side, ListSide::Right);
}

#[test]
fn poll_ms_has_a_sane_floor_but_zero_disables() {
    assert_eq!(read("poll_ms = 5").poll_ms, 250);
    assert_eq!(read("poll_ms = 0").poll_ms, 0); // disabled
    assert_eq!(read("poll_ms = 1000").poll_ms, 1000);
}

#[test]
fn width_percents_default_and_clamp() {
    let cfg = read("");
    assert_eq!(cfg.view_width_percent, 50);
    assert_eq!(cfg.list_width_percent, 25);
    let cfg = read("view_width_percent = 5\nlist_width_percent = 99");
    assert_eq!(cfg.view_width_percent, 20);
    assert_eq!(cfg.list_width_percent, 80);
}

#[test]
fn tab_width_defaults_and_clamps() {
    assert_eq!(read("").tab_width, 4);
    assert_eq!(read("tab_width = 0").tab_width, 1);
    assert_eq!(read("tab_width = 99").tab_width, 16);
    assert_eq!(read("tab_width = 8").tab_width, 8);
}

#[test]
fn context_lines_clamped_and_scope_parses() {
    assert_eq!(read("context_lines = 99").context_lines, 20);
    assert_eq!(
        read(r#"default_scope = "branch""#).default_scope,
        ScopePref::Branch
    );
}

#[test]
fn cleaning_twice_changes_nothing_more() {
    let once = read("poll_ms = 5\ncontext_lines = 99\nfetch_interval_ms = 7");
    let twice = once.clone().sanitize();
    assert_eq!(once.poll_ms, twice.poll_ms);
    assert_eq!(once.context_lines, twice.context_lines);
    assert_eq!(once.fetch_interval_ms, twice.fetch_interval_ms);
    assert!(!Theme::default().is_light());
    assert!(Theme::Light.is_light());
}

#[test]
fn without_a_file_every_setting_has_its_default() {
    let c = Config::parse(None);
    assert_eq!(c.base, "");
    assert_eq!(c.list_side, ListSide::Right);
    assert_eq!(c.editor, vec!["nvim".to_string()]);
    assert_eq!((c.poll_ms, c.fetch_interval_ms), (2000, 300_000));
    assert!(c.show_untracked && c.reuse_tab_nvim);
    assert_eq!(c.theme, Theme::Dark);
    assert_eq!(c.default_scope, ScopePref::Worktree);
    assert_eq!((c.context_lines, c.tab_width), (3, 4));
    assert!(c.keybindings.is_empty());
    assert_eq!((c.view_width_percent, c.list_width_percent), (50, 25));
    assert_eq!(c.log_refs, vec!["origin/staging".to_string()]);
}
