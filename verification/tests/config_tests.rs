use nodes::config::{parse_storage_config, Config, ConfigError, StorageConfig, TomlItem};

fn s(text: &str) -> String {
    text.to_string()
}

#[test]
fn storage_table_with_default() {
    let entries = vec![
        (s("default"), TomlItem::Str(s("main"))),
        (s("main"), TomlItem::Str(s("/data/main"))),
        (s("extra"), TomlItem::Str(s("/data/extra"))),
    ];
    let sc = parse_storage_config(entries).unwrap();
    assert_eq!(sc.default, "main");
    assert_eq!(
        sc.storages,
        vec![(s("main"), s("/data/main")), (s("extra"), s("/data/extra"))]
    );
}

#[test]
fn single_storage_becomes_default() {
    let entries = vec![(s("only"), TomlItem::Str(s("/data/only")))];
    let sc = parse_storage_config(entries).unwrap();
    assert_eq!(sc.default, "only");
    assert_eq!(sc.storages, vec![(s("only"), s("/data/only"))]);
}

#[test]
fn empty_table_is_rejected() {
    assert!(matches!(parse_storage_config(vec![]), Err(ConfigError::NoStorages)));
}

#[test]
fn several_storages_need_a_default() {
    let entries = vec![
        (s("a"), TomlItem::Str(s("/a"))),
        (s("b"), TomlItem::Str(s("/b"))),
    ];
    assert!(matches!(parse_storage_config(entries), Err(ConfigError::NoDefaultStorage)));
}

#[test]
fn default_must_name_a_storage() {
    let entries = vec![
        (s("default"), TomlItem::Str(s("gone"))),
        (s("main"), TomlItem::Str(s("/data/main"))),
    ];
    assert!(matches!(parse_storage_config(entries), Err(ConfigError::InvalidDefaultStorage)));
}

#[test]
fn default_must_be_text() {
    let entries = vec![
        (s("default"), TomlItem::Other),
        (s("main"), TomlItem::Str(s("/data/main"))),
    ];
    assert!(matches!(parse_storage_config(entries), Err(ConfigError::InvalidDefaultStorage)));
}

#[test]
fn storage_paths_must_be_text() {
    let entries = vec![
        (s("default"), TomlItem::Str(s("main"))),
        (s("main"), TomlItem::Other),
    ];
    assert!(matches!(parse_storage_config(entries), Err(ConfigError::InvalidStorage(_))));
}

#[test]
fn storage_folder_lookup() {
    let sc = StorageConfig {
        default: s("main"),
        storages: vec![(s("main"), s("/data/main")), (s("extra"), s("/data/extra"))],
    };
    let cfg = Config::from_parts(None, sc, vec![]);
    assert_eq!(cfg.storage_folder("extra"), Some(&s("/data/extra")));
    assert_eq!(cfg.storage_folder("missing"), None);
    assert_eq!(cfg.default_storage_folder(), &s("/data/main"));
}

#[test]
fn config_keeps_raw_value() {
    let raw = toml::Value::Integer(1);
    let sc = StorageConfig { default: s("a"), storages: vec![(s("a"), s("/a"))] };
    let cfg = Config::from_parts(Some(raw), sc, vec![]);
    assert!(cfg.value().is_some());
}
