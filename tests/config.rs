use ruuvi_exporter::config::{Config, ConfigError, MacMapping};

#[test]
fn test_default_config() {
    let config = Config::try_parse_from(&["program"]).unwrap();
    assert_eq!(config.port, 9000);
    assert_eq!(config.interface, "0.0.0.0");
    assert!(config.mac_mapping.is_none());
}

#[test]
fn test_custom_port_and_interface() {
    let config = Config::try_parse_from(&["program", "-p", "8080", "-i", "127.0.0.1"]).unwrap();
    assert_eq!(config.port, 8080);
    assert_eq!(config.interface, "127.0.0.1");
}

#[test]
fn test_custom_mac_mapping() {
    let mac_mapping_content = r#"
            "AA:BB:CC:DD:EE:FF": "Living Room"
            "11:22:33:44:55:66": "Kitchen"
        "#;
    let config = Config::try_parse_from(&["program", "--mac-mapping", "/etc/names.yaml"]).unwrap();
    assert_eq!(config.mac_mapping.as_deref(), Some("/etc/names.yaml"));

    let mapping = MacMapping::from_yaml(&format!("{}\n", mac_mapping_content)).unwrap();
    assert_eq!(mapping.lookup("AA:BB:CC:DD:EE:FF"), Some("Living Room"));
    assert_eq!(mapping.lookup("11:22:33:44:55:66"), Some("Kitchen"));
    assert_eq!(mapping.lookup("00:00:00:00:00:00"), None);
}

#[test]
fn test_mac_mapping_parsing() {
    let mac_mapping_content = r#"
            "AA:BB:CC:DD:EE:FF": "Living Room"
            "11:22:33:44:55:66": "Kitchen"
        "#;
    let mapping = MacMapping::from_yaml(&format!("{}\n", mac_mapping_content)).unwrap();
    assert_eq!(mapping.lookup("AA:BB:CC:DD:EE:FF"), Some("Living Room"));
    assert_eq!(mapping.lookup("11:22:33:44:55:66"), Some("Kitchen"));
    assert_eq!(mapping.lookup("00:00:00:00:00:00"), None);
}

#[test]
fn test_invalid_mac_mapping_file() {
    let mac_mapping_content = "invalid: yaml: content:";
    let result = MacMapping::from_yaml(&format!("{}\n", mac_mapping_content));
    assert!(result.is_err());
}

#[test]
fn test_empty_mac_mapping() {
    let mac_mapping_content = "{}";
    let mapping = MacMapping::from_yaml(&format!("{}\n", mac_mapping_content)).unwrap();
    assert_eq!(mapping.lookup("any-mac"), None);
}

#[test]
fn long_options_and_last_one_wins() {
    let config = Config::try_parse_from(&[
        "program", "--port", "1", "--interface", "::1", "--port", "65535", "-m", "names.yaml",
    ])
    .unwrap();
    assert_eq!(config.port, 65535);
    assert_eq!(config.interface, "::1");
    assert_eq!(config.mac_mapping.as_deref(), Some("names.yaml"));
}

#[test]
fn port_out_of_range_is_refused() {
    assert_eq!(
        Config::try_parse_from(&["program", "-p", "65536"]),
        Err(ConfigError::InvalidPort("65536".to_string()))
    );
    assert_eq!(
        Config::try_parse_from(&["program", "-p", "80a"]),
        Err(ConfigError::InvalidPort("80a".to_string()))
    );
    assert_eq!(
        Config::try_parse_from(&["program", "-p", ""]),
        Err(ConfigError::InvalidPort("".to_string()))
    );
}

#[test]
fn option_without_value_is_refused() {
    assert_eq!(
        Config::try_parse_from(&["program", "-i"]),
        Err(ConfigError::MissingValue("-i".to_string()))
    );
}

#[test]
fn unknown_argument_is_refused() {
    assert_eq!(
        Config::try_parse_from(&["program", "--verbose"]),
        Err(ConfigError::UnknownArgument("--verbose".to_string()))
    );
}

#[test]
fn first_pair_of_a_key_wins_in_lookup() {
    let mapping = MacMapping::from_pairs(vec![
        ("a".to_string(), "first".to_string()),
        ("a".to_string(), "second".to_string()),
    ]);
    assert_eq!(mapping.lookup("a"), Some("first"));
    assert_eq!(MacMapping::default().lookup("a"), None);
}
