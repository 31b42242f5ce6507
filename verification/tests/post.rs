use typlog_core::post::{new_post_files, validate_post_id, validate_slug, PostIdError, SlugError};
use typlog_core::scaffold::{render_template, should_seed, template_or_default, TemplateSource};

const DEFAULT_META_TOML_TEMPLATE: &str = "title = \"{title}\"\ndate = \"{date}\"\ndraft = false\n";

#[test]
fn post_id_passes_when_kebab_case() {
    assert!(validate_post_id("hello-2026").is_ok());
}

#[test]
fn post_id_fails_when_has_uppercase() {
    assert!(validate_post_id("Hello").is_err());
}

#[test]
fn post_id_errors_name_the_reason() {
    assert!(matches!(validate_post_id(""), Err(PostIdError::Empty)));
    assert!(matches!(validate_post_id("a b"), Err(PostIdError::InvalidChar)));
    assert!(matches!(validate_post_id("文章"), Err(PostIdError::InvalidChar)));
    assert_eq!(PostIdError::Empty.message(), "文章 id 不能为空");
}

#[test]
fn slug_should_pass_when_kebab_case() {
    assert!(validate_slug("hello-2026").is_ok());
}

#[test]
fn slug_should_fail_when_has_uppercase() {
    assert!(validate_slug("Hello").is_err());
}

#[test]
fn slug_errors_name_the_reason() {
    assert!(matches!(validate_slug(""), Err(SlugError::Empty)));
    assert!(matches!(validate_slug("a_b"), Err(SlugError::InvalidChar)));
    assert_eq!(SlugError::InvalidChar.message(), "slug 仅允许小写字母、数字、短横线");
}

#[test]
fn render_replaces_placeholders() {
    let out = render_template("x {slug} {date} {title}", "a", "2026-01-01", "T");
    assert_eq!(out, "x a 2026-01-01 T");
}

#[test]
fn render_keeps_text_without_placeholders() {
    assert_eq!(render_template("no {placeholders} here", "a", "b", "c"), "no {placeholders} here");
    assert_eq!(render_template("{title}{title}", "a", "b", "c"), "cc");
}

#[test]
fn new_post_files_render_meta_and_trim_post() {
    let (meta, post) =
        new_post_files("hello", "2026-03-01", DEFAULT_META_TOML_TEMPLATE, "\n body \n").ok().unwrap();
    assert_eq!(meta, "title = \"hello\"\ndate = \"2026-03-01\"\ndraft = false");
    assert_eq!(post, "body");
    assert!(matches!(new_post_files("Bad", "d", "m", "p"), Err(PostIdError::InvalidChar)));
}

#[test]
fn load_template_returns_default_when_path_missing() {
    let got = template_or_default(&TemplateSource::Missing, DEFAULT_META_TOML_TEMPLATE);
    assert_eq!(got, DEFAULT_META_TOML_TEMPLATE);
}

#[test]
fn load_template_returns_default_when_file_empty() {
    let source = TemplateSource::Contents("   \n  ".to_string());
    let got = template_or_default(&source, "DEFAULT");
    assert_eq!(got, "DEFAULT");
}

#[test]
fn load_template_returns_file_when_non_empty() {
    let source = TemplateSource::Contents("CUSTOM".to_string());
    let got = template_or_default(&source, "DEFAULT");
    assert_eq!(got, "CUSTOM");
}

#[test]
fn template_for_non_file_is_default_and_never_seeded() {
    assert_eq!(template_or_default(&TemplateSource::NotAFile, "D"), "D");
    assert!(!should_seed(&TemplateSource::NotAFile));
    assert!(should_seed(&TemplateSource::Missing));
    assert!(should_seed(&TemplateSource::Contents(" \n".into())));
    assert!(!should_seed(&TemplateSource::Contents("x".into())));
}
