use hayaku::config::{EnvEntry, EnvVarConfig, TemplateConfig};
use hayaku::env::{
    bool_env_value, build_context, canonical_env_key, project_name_from_path, resolve_env_value,
    sorted_env_keys,
};
use hayaku::error::Error;

fn config_with_env(env: Vec<EnvEntry>) -> TemplateConfig {
    TemplateConfig {
        name: "sample".to_string(),
        display_name: None,
        description: None,
        author: None,
        env,
    }
}

#[test]
fn canonicalizes_env_keys() {
    assert_eq!(canonical_env_key("crate_type"), "CRATE_TYPE");
    assert_eq!(canonical_env_key("with-hyphen"), "WITH_HYPHEN");
}

#[test]
fn project_name_extraction() {
    let path = "/tmp/example";
    assert_eq!(project_name_from_path(path).unwrap(), "example");
}

#[test]
fn canonicalization_is_idempotent_on_values() {
    let once = canonical_env_key("with-hyphen");
    assert_eq!(canonical_env_key(&once), once);
    let other = canonical_env_key("crate_type");
    assert_eq!(canonical_env_key(&other), other);
}

#[test]
fn canonicalization_handles_digits_and_non_ascii() {
    assert_eq!(canonical_env_key("abc123"), "ABC123");
    assert_eq!(canonical_env_key("h\u{e9}llo"), "H_LLO");
    assert_eq!(canonical_env_key(""), "");
}

#[test]
fn project_name_rejected_for_unusable_paths() {
    assert!(matches!(project_name_from_path("/"), Err(Error::IoError { .. })));
    assert!(matches!(project_name_from_path(""), Err(Error::IoError { .. })));
    assert!(matches!(project_name_from_path("/tmp/.."), Err(Error::IoError { .. })));
}

#[test]
fn project_name_ignores_trailing_slashes() {
    assert_eq!(project_name_from_path("/tmp/example///").unwrap(), "example");
    assert_eq!(project_name_from_path("example").unwrap(), "example");
}

#[test]
fn project_name_ignores_trailing_dot_components() {
    assert_eq!(project_name_from_path("demo/.").unwrap(), "demo");
    assert_eq!(project_name_from_path("demo/./").unwrap(), "demo");
    assert_eq!(project_name_from_path("/tmp/example/./.").unwrap(), "example");
    assert!(matches!(project_name_from_path("."), Err(Error::IoError { .. })));
    assert!(matches!(project_name_from_path("./"), Err(Error::IoError { .. })));
}

#[test]
fn required_value_missing_for_empty_string_value() {
    let var = EnvVarConfig::StringVar { prompt: "Name".to_string(), default: None };
    match resolve_env_value("author", &var, "") {
        Err(Error::RequiredValueMissing { key }) => assert_eq!(key, "author"),
        other => panic!("expected RequiredValueMissing, got {:?}", other),
    }
    assert_eq!(resolve_env_value("author", &var, "me").unwrap(), "me");
}

#[test]
fn invalid_choice_for_unlisted_value() {
    let var = EnvVarConfig::ChoiceVar {
        prompt: "Crate type".to_string(),
        choices: vec!["lib".to_string(), "bin".to_string()],
        default: Some("bin".to_string()),
    };
    match resolve_env_value("crate_type", &var, "weird") {
        Err(Error::InvalidChoice { key, value }) => {
            assert_eq!(key, "crate_type");
            assert_eq!(value, "weird");
        },
        other => panic!("expected InvalidChoice, got {:?}", other),
    }
    assert_eq!(resolve_env_value("crate_type", &var, "bin").unwrap(), "bin");
}

#[test]
fn bool_values_serialize_to_literals() {
    assert_eq!(bool_env_value(true), "true");
    assert_eq!(bool_env_value(false), "false");
    let var = EnvVarConfig::BoolVar { prompt: "CI?".to_string(), default: false };
    assert_eq!(resolve_env_value("ci", &var, "true").unwrap(), "true");
    assert_eq!(resolve_env_value("ci", &var, "false").unwrap(), "false");
    assert!(matches!(
        resolve_env_value("ci", &var, "yes"),
        Err(Error::InvalidChoice { .. })
    ));
}

#[test]
fn prompts_follow_sorted_key_order() {
    let mk = |key: &str| EnvEntry {
        key: key.to_string(),
        var: EnvVarConfig::StringVar { prompt: "p".to_string(), default: None },
    };
    let config = config_with_env(vec![mk("zeta"), mk("alpha"), mk("middle")]);
    let keys = sorted_env_keys(&config);
    assert_eq!(keys, vec!["alpha".to_string(), "middle".to_string(), "zeta".to_string()]);
}

#[test]
fn context_precedence_and_reserved_keys() {
    let config = config_with_env(Vec::new());
    let globals = vec![
        ("license".to_string(), "MIT".to_string()),
        ("crate_type".to_string(), "lib".to_string()),
    ];
    let values = vec![
        ("crate_type".to_string(), "bin".to_string()),
        ("project_name".to_string(), "evil".to_string()),
    ];
    let ctx = build_context("demo", &config, &globals, &values);
    assert_eq!(ctx.get("project_name").unwrap(), "demo");
    assert_eq!(ctx.get("PROJECT_NAME").unwrap(), "demo");
    assert_eq!(ctx.get("template_name").unwrap(), "sample");
    assert_eq!(ctx.get("TEMPLATE_NAME").unwrap(), "sample");
    // template-declared values overwrite global settings values
    assert_eq!(ctx.get("CRATE_TYPE").unwrap(), "bin");
    // global settings keys are canonicalized
    assert_eq!(ctx.get("LICENSE").unwrap(), "MIT");
    // raw keys do not appear
    assert!(ctx.get("license").is_none());
}
