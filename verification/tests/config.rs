use cascading_extract::config::{
    default_threads, normalize_config, normalize_threads, Config, ConfigSettings, UserConfig,
};

#[test]
fn test_default_threads() {
    assert_eq!(default_threads(), 4);
}

#[test]
fn test_normalize_threads() {
    assert_eq!(normalize_threads(0), 4);
    assert_eq!(normalize_threads(1), 1);
    assert_eq!(normalize_threads(5), 5);
    assert_eq!(normalize_threads(8), 8);
    assert_eq!(normalize_threads(9), 4);
    assert_eq!(normalize_threads(255), 4);
}

#[test]
fn test_normalize_config_clamps_threads() {
    let mut config = Config {
        config: ConfigSettings {
            delete_archive: true,
            recursive_search: true,
            threads: 0,
            dest: "out".to_string(),
            smart_mode: true,
        },
        user: UserConfig {
            passwords: Some(vec!["1151".to_string()]),
            watch_folders: Some(vec![]),
        },
    };
    normalize_config(&mut config);
    assert_eq!(config.config.threads, 4);
    assert_eq!(config.config.delete_archive, true);
    assert_eq!(config.config.recursive_search, true);
    assert_eq!(config.config.dest, "out".to_string());
    assert_eq!(config.config.smart_mode, true);
    assert_eq!(config.user.passwords.unwrap()[0], "1151".to_string());
    assert_eq!(config.user.watch_folders.unwrap().len(), 0);
}

#[test]
fn test_normalize_config_keeps_valid_threads() {
    let mut config = Config {
        config: ConfigSettings {
            delete_archive: false,
            recursive_search: false,
            threads: 6,
            dest: String::new(),
            smart_mode: false,
        },
        user: UserConfig { passwords: None, watch_folders: None },
    };
    normalize_config(&mut config);
    assert_eq!(config.config.threads, 6);
    assert!(config.user.passwords.is_none());
}
