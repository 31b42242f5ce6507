use typlog_core::config::{site_title_from_config, SiteConfig};
use typlog_core::server::{
    guess_content_type, join_path, request_allowed, request_candidate, request_rel_path, served_file,
    PathFacts,
};

#[test]
fn server_content_type_should_detect_html() {
    assert_eq!(guess_content_type("a/b/c.html"), "text/html; charset=utf-8");
}

#[test]
fn main_content_type_should_detect_html() {
    assert_eq!(guess_content_type("a/b/c.html"), "text/html; charset=utf-8");
}

#[test]
fn content_type_by_extension() {
    assert_eq!(guess_content_type("site.css"), "text/css; charset=utf-8");
    assert_eq!(guess_content_type("public/turbo.min.js"), "application/javascript; charset=utf-8");
    assert_eq!(guess_content_type("x/data.json"), "application/json; charset=utf-8");
    assert_eq!(guess_content_type("a.svg"), "image/svg+xml");
    assert_eq!(guess_content_type("a.png"), "image/png");
    assert_eq!(guess_content_type("a.jpg"), "image/jpeg");
    assert_eq!(guess_content_type("a.jpeg"), "image/jpeg");
    assert_eq!(guess_content_type("a.webp"), "image/webp");
    assert_eq!(guess_content_type("a.HTML"), "application/octet-stream");
    assert_eq!(guess_content_type(".html"), "application/octet-stream");
    assert_eq!(guess_content_type("dir.html/"), "text/html; charset=utf-8");
    assert_eq!(guess_content_type("a/index.html/."), "text/html; charset=utf-8");
    assert_eq!(guess_content_type("a/.."), "application/octet-stream");
    assert_eq!(guess_content_type("noext"), "application/octet-stream");
    assert_eq!(guess_content_type(""), "application/octet-stream");
}

#[test]
fn request_path_drops_query_and_leading_slashes() {
    assert_eq!(request_rel_path("/"), "");
    assert_eq!(request_rel_path("/posts/a/index.html?x=1"), "posts/a/index.html");
    assert_eq!(request_rel_path("//site.css"), "site.css");
    assert_eq!(request_rel_path("?q"), "");
}

#[test]
fn site_title_read_from_config() {
    assert_eq!(site_title_from_config("title = \"My Blog\"\nbase_url = \"/\"\n"), "My Blog");
    assert_eq!(site_title_from_config("# title = \"No\"\n  title=\"Yes\" # comment\n"), "Yes");
    assert_eq!(site_title_from_config("title = unquoted\ntitle = \"Second\""), "Second");
    assert_eq!(site_title_from_config("base_url = \"/\"\n"), "Typlog");
    assert_eq!(site_title_from_config(""), "Typlog");
    assert_eq!(site_title_from_config("title = \"\"\n"), "");
}

#[test]
fn default_site_config() {
    let c = SiteConfig::default();
    assert_eq!(c.title, "Typlog");
    assert_eq!(c.base_url, "/");
    assert_eq!(c.language, "zh-CN");
    assert_eq!(c.background_opacity, "1");
    assert_eq!(c.glass_panel_opacity, 8800);
}

fn facts(candidate_is_dir: bool, candidate_exists: bool, index_exists: bool, posts_is_dir: bool) -> PathFacts {
    PathFacts {
        candidate_is_dir,
        candidate_exists,
        index_is_dir: false,
        index_exists,
        posts_is_dir,
    }
}

#[test]
fn join_path_adds_one_separator() {
    assert_eq!(join_path("public", "index.html"), "public/index.html");
    assert_eq!(join_path("public/", "a.css"), "public/a.css");
    assert_eq!(join_path("", "a"), "a");
    assert_eq!(join_path("public", ""), "public/");
}

#[test]
fn request_candidate_for_root_and_paths() {
    assert_eq!(request_candidate(""), "public/index.html");
    assert_eq!(request_candidate("posts/a/"), "public/posts/a/");
    assert_eq!(request_candidate("site.css"), "public/site.css");
}

#[test]
fn served_file_for_plain_file() {
    assert_eq!(served_file("site.css", &facts(false, true, false, true)), Some("public/site.css".to_string()));
    assert_eq!(served_file("nope.css", &facts(false, false, false, true)), Some("public/nope.css".to_string()));
}

#[test]
fn served_file_directory_gives_its_index() {
    assert_eq!(
        served_file("posts/a", &facts(true, true, true, true)), Some("public/posts/a/index.html".to_string()));
    assert_eq!(
        served_file("posts/a/", &facts(true, true, true, true)), Some("public/posts/a/index.html".to_string()));
}

#[test]
fn served_file_root_with_and_without_index() {
    assert_eq!(served_file("", &facts(false, true, false, true)), Some("public/index.html".to_string()));
    assert_eq!(served_file("", &facts(false, false, false, true)), Some("public/posts/index.html".to_string()));
    assert_eq!(served_file("", &facts(false, false, false, false)), Some("public/posts".to_string()));
    assert_eq!(served_file("gone", &facts(false, false, false, true)), Some("public/gone".to_string()));
}

#[test]
fn request_allowed_refuses_parent_components() {
    assert!(request_allowed(""));
    assert!(request_allowed("posts/a/index.html"));
    assert!(request_allowed("a..b/..c/d.."));
    assert!(request_allowed("./x"));
    assert!(!request_allowed(".."));
    assert!(!request_allowed("../config.toml"));
    assert!(!request_allowed("posts/../../config.toml"));
    assert!(!request_allowed("posts/.."));
    assert!(!request_allowed("a//../b"));
}

#[test]
fn served_file_refuses_paths_leaving_public() {
    let rel = request_rel_path("/../config.toml");
    assert_eq!(rel, "../config.toml");
    assert_eq!(served_file(&rel, &facts(false, true, false, true)), None);
    assert_eq!(served_file("posts/../../x", &facts(false, true, false, true)), None);
    assert_eq!(
        served_file("posts/a..b", &facts(false, true, false, true)),
        Some("public/posts/a..b".to_string())
    );
}
