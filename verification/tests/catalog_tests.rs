use hayaku::error::Error;
use hayaku::hayaku_context::{Hayaku, SubdirListing, TemplateOrigin};
use hayaku::local_templates::LocalTemplates;

fn subdir(name: &str, metadata: Option<&str>) -> SubdirListing {
    SubdirListing { name: name.to_string(), metadata: metadata.map(|s| s.to_string()) }
}

#[test]
fn hayaku_context_uses_provided_template_directory() {
    let h = Hayaku::try_new_from_dir("/home/u/.hayaku", "/opt/built_in", &vec![], &vec![])
        .expect("init local templates");
    assert_eq!(h.hayaku_dir(), "/home/u/.hayaku");
    assert_eq!(h.local_template_dir(), "/home/u/.hayaku/templates");
    assert!(h.templates().is_empty());
    assert_eq!(h.built_in_template_dir(), "/opt/built_in");
    assert_eq!(h.settings_config_path(), "/home/u/.hayaku/hayaku.settings.toml");
}

#[test]
fn hayaku_context_discovers_template_directories() {
    let subdirs = vec![
        subdir("alpha", Some("[template]\nname = \"alpha-template\"")),
        subdir("beta", None),
    ];
    let h = Hayaku::try_new_from_dir("/h", "/b", &subdirs, &vec![]).expect("init local templates");
    assert_eq!(h.templates().len(), 2);
    assert!(h.get("alpha-template").is_some());
    assert!(h.get("beta").is_some());
    let alpha = h.get("alpha-template").unwrap();
    assert_eq!(alpha.config.name, "alpha-template");
    assert_eq!(alpha.path, "/h/templates/alpha");
}

#[test]
fn loads_built_in_templates() {
    let built_ins = vec![subdir("rust", None), subdir("python", None)];
    let h = Hayaku::try_new_from_dir("/h", "/b", &vec![], &built_ins).expect("init templates");
    assert!(!h.built_in_templates().is_empty());
    assert!(h.built_in_templates().iter().all(|t| matches!(t.origin, TemplateOrigin::BuiltIn)));
}

#[test]
fn local_templates_override_built_in() {
    let locals = vec![subdir(
        "rust",
        Some("[template]\nname = \"rust\"\ndescription = \"Local rust template\""),
    )];
    let built_ins = vec![subdir("rust", None)];
    let h = Hayaku::try_new_from_dir("/h", "/b", &locals, &built_ins).expect("init templates");
    let t = h.get("rust").expect("rust template exists");
    assert_eq!(t.path, "/h/templates/rust");
    assert!(matches!(t.origin, TemplateOrigin::Local));
    assert_eq!(t.config.description.as_deref(), Some("Local rust template"));
}

#[test]
fn hayaku_context_empty_when_no_subdirectories() {
    let h = Hayaku::try_new_from_dir("/h", "/b", &vec![], &vec![]).expect("init local templates");
    assert!(h.templates().is_empty());
}

#[test]
fn merged_view_counts_shared_ids_once() {
    let built_ins = vec![subdir("rust", None), subdir("python", None)];
    let locals = vec![
        subdir("rust", Some("[template]\nname = \"rust\"\ndescription = \"mine\"")),
        subdir("extra", None),
    ];
    let h = Hayaku::try_new_from_dir("/h", "/b", &locals, &built_ins).expect("init templates");
    let all = h.all_templates();
    // |merged| = |builtIn| + |local| - |ids shared| = 2 + 2 - 1
    assert_eq!(all.len(), 3);
    let rusts: Vec<_> = all.iter().filter(|e| e.config.name == "rust").collect();
    assert_eq!(rusts.len(), 1);
    assert!(matches!(rusts[0].origin, TemplateOrigin::Local));
    assert_eq!(rusts[0].path, "/h/templates/rust");
    // built-in entries come first, each group ordered by its listing key
    let names: Vec<&str> = all.iter().map(|e| e.config.name.as_str()).collect();
    assert_eq!(names, vec!["python", "extra", "rust"]);
}

#[test]
fn merged_view_orders_by_display_name() {
    let built_ins = vec![
        subdir("zeta", Some("[template]\nname = \"zeta\"\ndisplay_name = \"Aardvark\"")),
        subdir("alpha", Some("[template]\nname = \"alpha\"\ndisplay_name = \"Zebra\"")),
    ];
    let h = Hayaku::try_new_from_dir("/h", "/b", &vec![], &built_ins).expect("init templates");
    let all = h.all_templates();
    let names: Vec<&str> = all.iter().map(|e| e.config.name.as_str()).collect();
    assert_eq!(names, vec!["zeta", "alpha"]);
}

#[test]
fn one_bad_subdirectory_fails_discovery() {
    let subdirs = vec![subdir("good", None), subdir("bad", Some("not [ valid"))];
    let r = Hayaku::try_new_from_dir("/h", "/b", &subdirs, &vec![]);
    assert!(matches!(r, Err(Error::ConfigParse { .. })));
}

#[test]
fn later_subdirectory_wins_id_collision() {
    let subdirs = vec![
        subdir("a", Some("[template]\nname = \"same\"\ndescription = \"first\"")),
        subdir("b", Some("[template]\nname = \"same\"\ndescription = \"second\"")),
    ];
    let h = Hayaku::try_new_from_dir("/h", "/b", &subdirs, &vec![]).expect("init templates");
    assert_eq!(h.templates().len(), 1);
    let t = h.get("same").unwrap();
    assert_eq!(t.config.description.as_deref(), Some("second"));
    assert_eq!(t.path, "/h/templates/b");
}

#[test]
fn local_templates_uses_provided_template_directory() {
    let lt = LocalTemplates::try_new_from_dir("/d", &vec![]).expect("init local templates");
    assert_eq!(lt.hayaku_dir(), "/d");
    assert_eq!(lt.local_template_dir(), "/d/templates");
    assert!(lt.templates().is_empty());
}

#[test]
fn local_templates_discovers_template_directories() {
    let subdirs = vec![
        subdir("alpha", Some("[template]\nname = \"alpha-template\"")),
        subdir("beta", None),
    ];
    let lt = LocalTemplates::try_new_from_dir("/d", &subdirs).expect("init local templates");
    assert_eq!(lt.templates().len(), 2);
    assert!(lt.get("alpha-template").is_some());
    assert!(lt.get("beta").is_some());
    let alpha = lt.get("alpha-template").unwrap();
    assert_eq!(alpha.config.name, "alpha-template");
    assert_eq!(alpha.path, "/d/templates/alpha");
}

#[test]
fn local_templates_empty_when_no_subdirectories() {
    let lt = LocalTemplates::try_new_from_dir("/d", &vec![]).expect("init local templates");
    assert!(lt.templates().is_empty());
}
