use wgb::config::{Config, InitOutcome, UserConfig};

fn sample_config() -> Config {
    Config {
        app_name: "MyApp".to_string(),
        version: "0-alpha".to_string(),
        user: vec![UserConfig {
            config_path: "/tmp/file".to_string(),
            otp: false,
            otp_uri: "https://www.google.com".to_string(),
        }],
    }
}

#[test]
fn test_serialize_config() {
    let config = sample_config();
    let json = config.to_json_string();

    assert!(json.contains("\"app_name\": \"MyApp\""));
    assert!(json.contains("\"version\": \"0-alpha\""));
}

#[test]
fn test_deserialize_config() {
    let json = r#"
    {
        "app_name": "MyApp",
        "version": "0.0.0-alpha1",
        "user": [{
            "config_path": "/tmp/file2",
            "otp": true,
            "otp_uri": "https://www.google.it"
        }]
    }
    "#;

    let config: Config = Config::from_json_str(json).unwrap();
    assert_eq!(config.app_name, "MyApp");
    assert_eq!(config.user.get(0).unwrap().config_path, "/tmp/file2");
}

#[test]
fn test_serialize_exact_document() {
    let config = sample_config();
    let json = config.to_json_string();
    assert_eq!(
        json,
        "{\"app_name\": \"MyApp\", \"version\": \"0-alpha\", \"user\": \
         [{\"config_path\": \"/tmp/file\", \"otp\": false, \
         \"otp_uri\": \"https://www.google.com\"}]}"
    );
}

#[test]
fn test_json_round_trip() {
    let config = sample_config();
    let loaded = Config::from_json_str(&config.to_json_string()).unwrap();
    assert_eq!(config, loaded);
}

#[test]
fn test_json_round_trip_empty_users() {
    let config = Config {
        app_name: "A".to_string(),
        version: "1".to_string(),
        user: vec![],
    };
    let json = config.to_json_string();
    assert!(json.contains("\"user\": []"));
    let loaded = Config::from_json_str(&json).unwrap();
    assert_eq!(config, loaded);
}

#[test]
fn test_json_round_trip_many_users() {
    let mut user = Vec::new();
    for k in 0..5 {
        user.push(UserConfig {
            config_path: format!("/etc/wg{k}.conf"),
            otp: k % 2 == 0,
            otp_uri: format!("otpauth://totp/u{k}"),
        });
    }
    let config = Config {
        app_name: "WGBridge".to_string(),
        version: "2.0".to_string(),
        user,
    };
    let loaded = Config::from_json_str(&config.to_json_string()).unwrap();
    assert_eq!(config, loaded);
}

#[test]
fn test_json_round_trip_escapes() {
    let config = Config {
        app_name: "quote \" backslash \\ done".to_string(),
        version: "line\nbreak\ttab\rret".to_string(),
        user: vec![UserConfig {
            config_path: "C:\\Program Files\\wg\\\"quoted\".conf".to_string(),
            otp: true,
            otp_uri: "".to_string(),
        }],
    };
    let loaded = Config::from_json_str(&config.to_json_string()).unwrap();
    assert_eq!(config, loaded);
}

#[test]
fn test_parse_escape_sequences() {
    let json = "{\"app_name\": \"a\\\"b\\\\c\\nd\\te\\rf\\/g\", \
                \"version\": \"v\", \"user\": []}";
    let config = Config::from_json_str(json).unwrap();
    assert_eq!(config.app_name, "a\"b\\c\nd\te\rf/g");
}

#[test]
fn test_parse_rejects_malformed() {
    // missing closing brace
    assert!(Config::from_json_str("{\"app_name\": \"a\", \"version\": \"v\", \"user\": []").is_none());
    // wrong key order
    assert!(Config::from_json_str("{\"version\": \"v\", \"app_name\": \"a\", \"user\": []}").is_none());
    // unterminated string
    assert!(Config::from_json_str("{\"app_name\": \"a, \"version\": \"v\", \"user\": []}").is_none());
    // invalid escape code
    assert!(Config::from_json_str("{\"app_name\": \"a\\qb\", \"version\": \"v\", \"user\": []}").is_none());
    // boolean misspelt
    assert!(Config::from_json_str(
        "{\"app_name\": \"a\", \"version\": \"v\", \"user\": \
         [{\"config_path\": \"p\", \"otp\": maybe, \"otp_uri\": \"u\"}]}"
    ).is_none());
    // trailing garbage
    assert!(Config::from_json_str("{\"app_name\": \"a\", \"version\": \"v\", \"user\": []} x").is_none());
    // empty text
    assert!(Config::from_json_str("").is_none());
}

#[test]
fn test_parse_accepts_whitespace() {
    let json = "  \r\n {\n\t\"app_name\" : \"a\" ,\n \"version\" :\t\"v\" , \
                \"user\" : [ ] \n}\n  ";
    let config = Config::from_json_str(json).unwrap();
    assert_eq!(config.app_name, "a");
    assert_eq!(config.version, "v");
    assert!(config.user.is_empty());
}

#[test]
fn test_default_config() {
    let config = Config::default_config("0.1.0");
    assert_eq!(config.app_name, "WGBridge");
    assert_eq!(config.version, "0.1.0");
    assert!(config.user.is_empty());
}

#[test]
fn test_init_config_created() {
    match Config::init_config(None, "1.2.3") {
        InitOutcome::Created(config, text) => {
            assert_eq!(config.app_name, "WGBridge");
            assert_eq!(config.version, "1.2.3");
            assert!(config.user.is_empty());
            assert_eq!(
                text,
                "{\"app_name\": \"WGBridge\", \"version\": \"1.2.3\", \"user\": []}"
            );
        }
        _ => panic!("expected a freshly created configuration"),
    }
}

#[test]
fn test_init_config_loaded() {
    let json = "{\"app_name\": \"WGBridge\", \"version\": \"0.9\", \"user\": \
                [{\"config_path\": \"/etc/wg0.conf\", \"otp\": true, \
                \"otp_uri\": \"otpauth://totp/x\"}]}";
    match Config::init_config(Some(json), "1.2.3") {
        InitOutcome::Loaded(config) => {
            assert_eq!(config.version, "0.9");
            assert_eq!(config.user.len(), 1);
            assert!(config.user[0].otp);
            assert_eq!(config.user[0].config_path, "/etc/wg0.conf");
        }
        _ => panic!("expected the existing configuration to load"),
    }
}

#[test]
fn test_init_config_invalid() {
    let outcome = Config::init_config(Some("not a configuration"), "1.2.3");
    assert!(matches!(outcome, InitOutcome::Invalid));
}
