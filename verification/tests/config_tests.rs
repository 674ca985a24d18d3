use hayaku::config::{EnvVarConfig, TemplateConfig};
use hayaku::error::Error;

fn find_var<'a>(cfg: &'a TemplateConfig, key: &str) -> &'a EnvVarConfig {
    for e in cfg.env.iter() {
        if e.key == key {
            return &e.var;
        }
    }
    panic!("variable {} not declared", key);
}

#[test]
fn metadata_round_trip() {
    let text = "[template]\nname = \"demo-template\"\ndisplay_name = \"Demo\"\ndescription = \"A demo template\"\nauthor = \"someone\"\n\n[env]\ncrate_type = { type = \"choices\", prompt = \"Crate type\", choices = [\"lib\", \"bin\"], default = \"bin\" }\nlicense = { type = \"string\", prompt = \"License\", default = \"MIT\" }\nci = { type = \"bool\", prompt = \"Add CI\", default = true }\n";
    let cfg = TemplateConfig::from_metadata_text(text, "demo/hayaku.toml").unwrap();
    assert_eq!(cfg.name, "demo-template");
    assert_eq!(cfg.display_name.as_deref(), Some("Demo"));
    assert_eq!(cfg.description.as_deref(), Some("A demo template"));
    assert_eq!(cfg.author.as_deref(), Some("someone"));
    assert_eq!(cfg.env.len(), 3);
    match find_var(&cfg, "crate_type") {
        EnvVarConfig::ChoiceVar { prompt, choices, default } => {
            assert_eq!(prompt, "Crate type");
            assert_eq!(choices, &vec!["lib".to_string(), "bin".to_string()]);
            assert_eq!(default.as_deref(), Some("bin"));
        },
        other => panic!("wrong variant: {:?}", other),
    }
    match find_var(&cfg, "license") {
        EnvVarConfig::StringVar { prompt, default } => {
            assert_eq!(prompt, "License");
            assert_eq!(default.as_deref(), Some("MIT"));
        },
        other => panic!("wrong variant: {:?}", other),
    }
    match find_var(&cfg, "ci") {
        EnvVarConfig::BoolVar { prompt, default } => {
            assert_eq!(prompt, "Add CI");
            assert!(*default);
        },
        other => panic!("wrong variant: {:?}", other),
    }
}

#[test]
fn missing_metadata_synthesizes_default() {
    let cfg = TemplateConfig::from_dir_listing("mydir", None, "mydir/hayaku.toml").unwrap();
    assert_eq!(cfg.name, "mydir");
    assert!(cfg.display_name.is_none());
    assert!(cfg.description.is_none());
    assert!(cfg.author.is_none());
    assert!(cfg.env.is_empty());
}

#[test]
fn parse_failure_names_the_file() {
    match TemplateConfig::from_metadata_text("not [ valid toml", "some/hayaku.toml") {
        Err(Error::ConfigParse { path, .. }) => assert_eq!(path, "some/hayaku.toml"),
        other => panic!("expected ConfigParse, got {:?}", other),
    }
}

#[test]
fn env_table_is_optional() {
    let cfg = TemplateConfig::from_metadata_text("[template]\nname = \"bare\"\n", "x").unwrap();
    assert_eq!(cfg.name, "bare");
    assert!(cfg.env.is_empty());
}

#[test]
fn missing_name_is_a_parse_error() {
    let r = TemplateConfig::from_metadata_text("[template]\ndisplay_name = \"x\"\n", "f");
    assert!(matches!(r, Err(Error::ConfigParse { .. })));
}

#[test]
fn unknown_variable_type_rejected() {
    let text = "[template]\nname = \"x\"\n[env]\nv = { type = \"number\", prompt = \"p\" }\n";
    assert!(matches!(
        TemplateConfig::from_metadata_text(text, "f"),
        Err(Error::ConfigParse { .. })
    ));
}

#[test]
fn empty_choices_rejected() {
    let text = "[template]\nname = \"x\"\n[env]\nv = { type = \"choices\", prompt = \"p\", choices = [] }\n";
    assert!(matches!(
        TemplateConfig::from_metadata_text(text, "f"),
        Err(Error::ConfigParse { .. })
    ));
}

#[test]
fn bool_default_defaults_to_false() {
    let text = "[template]\nname = \"x\"\n[env]\nci = { type = \"bool\", prompt = \"p\" }\n";
    let cfg = TemplateConfig::from_metadata_text(text, "f").unwrap();
    match find_var(&cfg, "ci") {
        EnvVarConfig::BoolVar { default, .. } => assert!(!*default),
        other => panic!("wrong variant: {:?}", other),
    }
}
