use hayaku::config::TemplateConfig;
use hayaku::context::RenderContext;
use hayaku::env::build_context;
use hayaku::error::Error;
use hayaku::templating::{create_project, process_dest_path, TemplateFile};

fn ctx_demo(template_name: &str) -> RenderContext {
    let config = TemplateConfig::default(template_name);
    build_context("demo", &config, &vec![], &vec![])
}

fn file(path: &str, contents: &[u8]) -> TemplateFile {
    TemplateFile { path: path.to_string(), contents: contents.to_vec() }
}

fn output_of<'a>(outs: &'a [hayaku::templating::OutputFile], path: &str) -> &'a [u8] {
    for o in outs.iter() {
        if o.path == path {
            return &o.contents;
        }
    }
    panic!("no output at {}", path);
}

#[test]
fn renders_template_variables() {
    let files = vec![
        file("file.txt", b"Hello {{ project_name }}"),
        file("nested/config.toml", b"name = \"{{ PROJECT_NAME }}\""),
    ];
    let context = ctx_demo("some_template");
    let outs = create_project(&files, &context).unwrap();
    assert_eq!(output_of(&outs, "file.txt"), b"Hello demo");
    assert_eq!(output_of(&outs, "nested/config.toml"), b"name = \"demo\"");
}

#[test]
fn create_project_renders_and_respects_ignores() {
    let files = vec![
        file(".gitignore", b"ignored.txt\n"),
        file("file.txt", b"Hello {{ project_name }}"),
        file("nested/config.toml", b"name = \"{{ PROJECT_NAME }}\""),
        file(".git/config", b"secret"),
    ];
    let context = ctx_demo("demo");
    let outs = create_project(&files, &context).unwrap();
    assert_eq!(output_of(&outs, "file.txt"), b"Hello demo");
    assert_eq!(output_of(&outs, "nested/config.toml"), b"name = \"demo\"");
    assert!(outs.iter().all(|o| !o.path.contains(".git")));
    // exactly the two rendered files are written
    assert_eq!(outs.len(), 2);
}

#[test]
fn process_dest_path_substitutes_with_context() {
    let mut context = RenderContext::new();
    context.insert("PROJECT_NAME", "demo");
    let resolved = process_dest_path("output/[PROJECT_NAME]/config.toml", &context);
    assert_eq!(resolved, "output/demo/config.toml");
}

#[test]
fn unresolved_bracket_stays_literal() {
    let context = ctx_demo("t");
    let resolved = process_dest_path("out/[MISSING]/file.txt", &context);
    assert_eq!(resolved, "out/[MISSING]/file.txt");
}

#[test]
fn skip_directive_copies_verbatim() {
    let content: &[u8] = b"// hayaku: skip-templating\nHello {{ project_name }}";
    let files = vec![file("keep.txt.tera", content)];
    let context = ctx_demo("t");
    let outs = create_project(&files, &context).unwrap();
    assert_eq!(outs.len(), 1);
    // copied byte for byte, directive line included, extension kept
    assert_eq!(outs[0].path, "keep.txt.tera");
    assert_eq!(outs[0].contents.as_slice(), content);
}

#[test]
fn skip_directive_tolerates_trailing_carriage_return() {
    let content: &[u8] = b"// hayaku: skip-templating\r\n{{ not_defined }}";
    let files = vec![file("keep.txt", content)];
    let context = ctx_demo("t");
    let outs = create_project(&files, &context).unwrap();
    assert_eq!(outs[0].contents.as_slice(), content);
}

#[test]
fn sentinel_without_comment_prefix_renders_normally() {
    let files = vec![file("a.txt", b"# hayaku: skip-templating\nHello {{ project_name }}")];
    let context = ctx_demo("t");
    let outs = create_project(&files, &context).unwrap();
    assert_eq!(
        outs[0].contents.as_slice(),
        b"# hayaku: skip-templating\nHello demo".as_slice()
    );
}

#[test]
fn marker_extension_is_stripped() {
    let files = vec![
        file("config.toml.tera", b"name = \"{{ project_name }}\""),
        file("plain/config.toml", b"name = \"{{ project_name }}\""),
    ];
    let context = ctx_demo("t");
    let outs = create_project(&files, &context).unwrap();
    assert_eq!(output_of(&outs, "config.toml"), b"name = \"demo\"");
    assert_eq!(output_of(&outs, "plain/config.toml"), b"name = \"demo\"");
}

#[test]
fn marker_extension_case_insensitive() {
    let files = vec![file("note.TERA", b"x")];
    let context = ctx_demo("t");
    let outs = create_project(&files, &context).unwrap();
    assert_eq!(outs[0].path, "note");
}

#[test]
fn hidden_file_name_is_not_an_extension() {
    let files = vec![file(".tera", b"x")];
    let context = ctx_demo("t");
    let outs = create_project(&files, &context).unwrap();
    assert_eq!(outs[0].path, ".tera");
}

#[test]
fn binary_passes_through_unchanged() {
    let blob: &[u8] = &[0xff, 0x00, 0xfe, 0x80, 0xc3];
    let files = vec![file("blob.bin.tera", blob)];
    let context = ctx_demo("t");
    let outs = create_project(&files, &context).unwrap();
    assert_eq!(outs[0].path, "blob.bin");
    assert_eq!(outs[0].contents.as_slice(), blob);
}

#[test]
fn render_error_names_the_source_file() {
    let files = vec![file("ok.txt", b"fine"), file("bad.txt", b"{% if %}")];
    let context = ctx_demo("t");
    match create_project(&files, &context) {
        Err(Error::RenderError { path, .. }) => assert_eq!(path, "bad.txt"),
        other => panic!("expected RenderError, got {:?}", other),
    }
}

#[test]
fn bracketed_directory_and_file_segments_resolve() {
    let mut context = RenderContext::new();
    context.insert("PROJECT_NAME", "demo");
    context.insert("FILE", "mod.rs");
    assert_eq!(process_dest_path("[PROJECT_NAME]/[FILE]", &context), "demo/mod.rs");
    // a segment must be exactly [name]; partial brackets stay literal
    assert_eq!(process_dest_path("x[PROJECT_NAME]/y", &context), "x[PROJECT_NAME]/y");
}
