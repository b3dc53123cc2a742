use medley::config_manager::{parse_engine, ConfigError, Engine, ParsedConfig};

#[test]
fn known_engines() {
    assert!(matches!(parse_engine("internal"), Ok(Engine::Internal)));
    assert!(matches!(parse_engine("maxima"), Ok(Engine::Maxima)));
}

#[test]
fn unknown_engine_is_reported() {
    match parse_engine("octave") {
        Err(ConfigError::InvalidValue { found }) => assert_eq!(found, "octave"),
        _ => panic!("expected an invalid value"),
    }
    assert!(matches!(parse_engine("Internal"), Err(ConfigError::InvalidValue { .. })));
    assert!(matches!(parse_engine(""), Err(ConfigError::InvalidValue { .. })));
}

#[test]
fn config_error_kind() {
    let e = parse_engine("x").err().unwrap();
    assert_eq!(e.kind(), "config file error");
}

#[test]
fn defaults_choose_the_internal_engine() {
    assert_eq!(Engine::default(), Engine::Internal);
    assert_eq!(ParsedConfig::default().engine, Engine::Internal);
}
