use distore::config::{config_from_section, resolve_config};
use distore::{ConfigError, ConfigValue};

#[test]
fn parse_accepts_the_two_keys() {
    match ConfigValue::parse("token".to_string(), "example-token".to_string()) {
        Ok(ConfigValue::Token(v)) => assert_eq!(v, "example-token"),
        _ => panic!("expected a token value"),
    }
    match ConfigValue::parse("channel".to_string(), "123".to_string()) {
        Ok(ConfigValue::Channel(v)) => assert_eq!(v, "123"),
        _ => panic!("expected a channel value"),
    }
}

#[test]
fn parse_rejects_other_keys() {
    match ConfigValue::parse("color".to_string(), "red".to_string()) {
        Err(ConfigError::InvalidKey(k)) => assert_eq!(k, "color"),
        _ => panic!("expected an InvalidKey error"),
    }
}

#[test]
fn inner_and_pairs_expose_the_value() {
    let t = ConfigValue::Token("abc".to_string());
    assert_eq!(t.inner(), "abc");
    assert_eq!(t._pairs(), ("Token", "abc"));
    let c = ConfigValue::Channel("9".to_string());
    assert_eq!(c.inner(), "9");
    assert_eq!(c._pairs(), ("Channel", "9"));
}

#[test]
fn scoped_value_shadows_the_global_one() {
    assert_eq!(
        resolve_config(Some("a".to_string()), Some("b".to_string())),
        Some("a".to_string())
    );
    assert_eq!(resolve_config(None, Some("b".to_string())), Some("b".to_string()));
    assert_eq!(resolve_config(None, None), None);
}

#[test]
fn section_must_hold_token_and_channel() {
    match config_from_section(None, Some("1".to_string())) {
        Err(ConfigError::NoToken) => {}
        _ => panic!("expected a NoToken error"),
    }
    match config_from_section(Some("t".to_string()), None) {
        Err(ConfigError::NoChannel) => {}
        _ => panic!("expected a NoChannel error"),
    }
    let (t, c) = config_from_section(Some("t".to_string()), Some("1".to_string())).unwrap();
    assert_eq!(t.inner(), "t");
    assert_eq!(c.inner(), "1");
}
