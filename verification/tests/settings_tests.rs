use hayaku::config::TemplateConfig;
use hayaku::env::build_context;
use hayaku::error::Error;
use hayaku::hayaku_context::HayakuSettings;
use hayaku::toml_data::node_to_document_text;

fn value_of(values: &[(String, String)], key: &str) -> String {
    for (k, v) in values.iter() {
        if k == key {
            return v.clone();
        }
    }
    panic!("no settings value under {}", key);
}

#[test]
fn missing_settings_file_yields_defaults() {
    let s = HayakuSettings::from_text(None, "settings.toml").unwrap();
    assert!(s.global_env.is_none());
}

#[test]
fn settings_values_serialize_to_strings() {
    let text = "[global_env]\nLICENSE = \"MIT\"\ncount = 42\nflag = true\n";
    let s = HayakuSettings::from_text(Some(text), "settings.toml").unwrap();
    let values = s.global_env_values();
    assert_eq!(values.len(), 3);
    assert_eq!(value_of(&values, "LICENSE"), "MIT");
    assert_eq!(value_of(&values, "count"), "42");
    assert_eq!(value_of(&values, "flag"), "true");
}

#[test]
fn settings_round_trip_through_toml() {
    let text = "[global_env]\nLICENSE = \"MIT OR Apache-2.0\"\nretries = -3\n";
    let s = HayakuSettings::from_text(Some(text), "settings.toml").unwrap();
    let node = s.to_toml_node();
    let out = node_to_document_text(&node).unwrap();
    let s2 = HayakuSettings::from_text(Some(out.as_str()), "settings.toml").unwrap();
    let values = s2.global_env_values();
    assert_eq!(value_of(&values, "LICENSE"), "MIT OR Apache-2.0");
    assert_eq!(value_of(&values, "retries"), "-3");
}

#[test]
fn settings_parse_failure_names_the_file() {
    match HayakuSettings::from_text(Some("not [ valid"), "cfg/settings.toml") {
        Err(Error::ConfigParse { path, .. }) => assert_eq!(path, "cfg/settings.toml"),
        other => panic!("expected ConfigParse, got {:?}", other),
    }
}

#[test]
fn non_scalar_setting_rejected() {
    let text = "[global_env]\nnested = { a = 1 }\n";
    assert!(matches!(
        HayakuSettings::from_text(Some(text), "s"),
        Err(Error::ConfigParse { .. })
    ));
}

#[test]
fn extreme_integer_setting_serializes() {
    let text = "[global_env]\nbig = -9223372036854775808\n";
    let s = HayakuSettings::from_text(Some(text), "s").unwrap();
    let values = s.global_env_values();
    assert_eq!(value_of(&values, "big"), "-9223372036854775808");
}

#[test]
fn settings_feed_the_render_context() {
    let text = "[global_env]\nlicense = \"MPL-2.0\"\n";
    let s = HayakuSettings::from_text(Some(text), "s").unwrap();
    let config = TemplateConfig::default("tpl");
    let ctx = build_context("demo", &config, &s.global_env_values(), &vec![]);
    assert_eq!(ctx.get("LICENSE").unwrap(), "MPL-2.0");
}

#[test]
fn error_messages_carry_their_context() {
    let e = Error::TemplateNotFound { id: "rust".to_string() };
    assert_eq!(e.message(), "Template not found: rust");
    let e = Error::NoHomeDirectory;
    assert_eq!(e.message(), "Could not determine home directory");
    let e = Error::NotADirectory { path: "/x".to_string() };
    assert_eq!(e.message(), "Path is not a directory: /x");
}
