use typlog_core::config::SiteConfig;
use typlog_core::date::PostDate;
use typlog_core::html::{
    background_style_for_site, css_url_value, glass_panel_css_vars, hero_html, html_escape,
    inject_theme_post_html, render_index_html, render_index_post_items, render_plain_index_html,
    site_href, site_root_asset_url,
};
use typlog_core::meta::PostMeta;

/// A decimal opacity in the library's ten-thousandths.
fn ten_thousandths(x: f64) -> u32 {
    (x * 10000.0).round() as u32
}

fn post(id: &str, title: &str, date: Option<(i32, u32, u32)>) -> PostMeta {
    PostMeta {
        id: id.to_string(),
        title: title.to_string(),
        date: date.map(|(y, m, d)| PostDate::from_ymd_opt(y, m, d).unwrap()),
        updated: None,
        draft: false,
    }
}

#[test]
fn html_html_escape_should_escape_special_chars() {
    assert_eq!(html_escape("&<>"), "&amp;&lt;&gt;");
    assert_eq!(html_escape("\""), "&quot;");
}

#[test]
fn main_html_escape_should_escape_special_chars() {
    assert_eq!(html_escape("&<>"), "&amp;&lt;&gt;");
    assert_eq!(html_escape("\""), "&quot;");
}

#[test]
fn html_escape_keeps_plain_text() {
    assert_eq!(html_escape("plain text 文章"), "plain text 文章");
    assert_eq!(html_escape(""), "");
}

#[test]
fn html_escape_concatenates() {
    let a = "a<b";
    let b = "&\"c\"";
    assert_eq!(
        html_escape(&format!("{a}{b}")),
        format!("{}{}", html_escape(a), html_escape(b))
    );
}

#[test]
fn html_escape_leaves_no_markup() {
    let out = html_escape("<script>alert(\"x\")</script> & more");
    assert!(!out.contains('<'));
    assert!(!out.contains('>'));
    assert!(!out.contains('"'));
}

#[test]
fn site_href_root() {
    let site = SiteConfig {
        base_url: "/".to_string(),
        ..Default::default()
    };
    assert_eq!(site_href(&site, "index.html"), "/index.html");
    assert_eq!(site_href(&site, "posts/a/index.html"), "/posts/a/index.html");
}

#[test]
fn site_href_with_base_and_slashes() {
    let site = SiteConfig {
        base_url: " https://example.com/blog ".to_string(),
        ..Default::default()
    };
    assert_eq!(site_href(&site, "//index.html"), "https://example.com/blog/index.html");
    let site2 = SiteConfig {
        base_url: "/sub/".to_string(),
        ..Default::default()
    };
    assert_eq!(site_href(&site2, " a.css "), "/sub/a.css");
    let root = SiteConfig {
        base_url: "".to_string(),
        ..Default::default()
    };
    assert_eq!(site_href(&root, ""), "/");
}

#[test]
fn site_root_asset_url_keeps_absolute_urls() {
    let site = SiteConfig::default();
    assert_eq!(site_root_asset_url(&site, " https://cdn.example/x.png "), "https://cdn.example/x.png");
    assert_eq!(site_root_asset_url(&site, "http://a/b"), "http://a/b");
    assert_eq!(site_root_asset_url(&site, "img/bg.jpg"), "/img/bg.jpg");
    assert_eq!(site_root_asset_url(&site, "   "), "");
}

#[test]
fn css_url_value_escapes_quotes_and_backslashes() {
    assert_eq!(css_url_value("/a.jpg"), "url(\"/a.jpg\")");
    assert_eq!(css_url_value("a\"b\\c"), "url(\"a\\\"b\\\\c\")");
}

#[test]
fn inject_post_wraps_body_and_keeps_doctype() {
    let site = SiteConfig {
        title: "Blog".to_string(),
        ..Default::default()
    };
    let meta = PostMeta {
        id: "a".into(),
        title: "Title".into(),
        date: Some(PostDate::from_ymd_opt(2026, 3, 1).unwrap()),
        updated: None,
        draft: false,
    };
    let raw = "<!DOCTYPE html>\n<html>\n<head>\n<meta charset=\"utf-8\">\n<title>x</title>\n</head>\n<body>\n<p>Hi</p>\n</body>\n</html>\n";
    let out = inject_theme_post_html(raw, &site, &meta);
    assert!(out.contains("material-appbar"));
    assert!(out.contains("material-typst"));
    assert!(out.contains("<p>Hi</p>"));
    assert!(out.contains("site.css"));
    assert!(out.contains("typlog-bg"));
    assert!(out.contains("turbo.min.js"));
    assert!(out.contains("href=\"/index.html\""));
    assert!(out.contains("typlog-glass-vars"));
}

#[test]
fn inject_post_exact_layout() {
    let site = SiteConfig {
        title: "B&B".to_string(),
        glass_panel_opacity: 10000,
        ..Default::default()
    };
    let meta = post("a", "T<1>", Some((2026, 3, 1)));
    let raw = "<html><HEAD></HEAD><BODY class=\"x\">  <p>Hi</p> \n</BODY>tail";
    let out = inject_theme_post_html(raw, &site, &meta);
    let expected = [
        "<html><HEAD>",
        "    <link rel=\"preconnect\" href=\"https://fonts.googleapis.com\">\n",
        "    <link rel=\"preconnect\" href=\"https://fonts.gstatic.com\" crossorigin>\n",
        "    <link href=\"https://fonts.googleapis.com/css2?family=Roboto:wght@400;500;700&display=swap\" rel=\"stylesheet\">\n",
        "    <link rel=\"stylesheet\" href=\"../../site.css\">\n",
        "    <script src=\"../../turbo.min.js\" defer></script>\n",
        "<style id=\"typlog-glass-vars\">\n:root {\n  --glass-body-a: 1.0000;\n  --glass-body-a-mid: 0.9600;\n  --glass-body-a-bottom: 0.9800;\n}\n</style>\n",
        "</HEAD><body class=\"typlog-material\">\n",
        "<div id=\"typlog-bg\" data-turbo-permanent aria-hidden=\"true\"></div>\n",
        "<header class=\"material-appbar\"><div class=\"material-appbar-inner\"><a class=\"material-appbar-brand\" href=\"/index.html\">B&amp;B</a></div></header>\n",
        "<main id=\"typlog-main\" class=\"material-post-main\">\n<section class=\"material-article-hero\">\n",
        "<h1 class=\"material-article-title\">T&lt;1&gt;</h1>\n",
        "<p class=\"material-article-date\"><time datetime=\"2026-03-01\">2026-03-01</time></p>\n",
        "</section>\n<div class=\"material-typst\">\n<p>Hi</p>\n</div>\n</main>\n</body>tail",
    ]
    .concat();
    assert_eq!(out, expected);
}

#[test]
fn inject_post_only_adds_missing_head_parts() {
    let site = SiteConfig::default();
    let meta = post("a", "T", None);
    let raw = "<head><link href=\"../../site.css\"><script src=\"turbo.min.js\"></script><style id=\"typlog-glass-vars\"></style></head><p>no body</p>";
    let out = inject_theme_post_html(raw, &site, &meta);
    assert_eq!(out, raw);
}

#[test]
fn inject_post_adds_turbo_when_css_present() {
    let site = SiteConfig::default();
    let meta = post("a", "T", None);
    let raw = "<head><link href=\"../../site.css\"><style>typlog-glass-vars</style></head>";
    let out = inject_theme_post_html(raw, &site, &meta);
    assert_eq!(
        out,
        "<head><link href=\"../../site.css\"><style>typlog-glass-vars</style>    <script src=\"../../turbo.min.js\" defer></script>\n</head>"
    );
}

#[test]
fn glass_panel_css_vars_follows_config() {
    let site = SiteConfig {
        glass_panel_opacity: ten_thousandths(0.9),
        ..Default::default()
    };
    let s = glass_panel_css_vars(&site);
    assert!(s.contains("typlog-glass-vars"));
    assert!(s.contains("--glass-body-a: 0.9000"));
}

#[test]
fn glass_panel_css_vars_clamps() {
    let low = SiteConfig {
        glass_panel_opacity: ten_thousandths(0.1),
        ..Default::default()
    };
    assert_eq!(
        glass_panel_css_vars(&low),
        "<style id=\"typlog-glass-vars\">\n:root {\n  --glass-body-a: 0.3500;\n  --glass-body-a-mid: 0.3500;\n  --glass-body-a-bottom: 0.3500;\n}\n</style>\n"
    );
    let high = SiteConfig {
        glass_panel_opacity: ten_thousandths(3.0),
        ..Default::default()
    };
    assert!(glass_panel_css_vars(&high).contains("--glass-body-a: 1.0000;\n  --glass-body-a-mid: 0.9600;\n  --glass-body-a-bottom: 0.9800;"));
}

#[test]
fn background_style_uses_site_root_url() {
    let site = SiteConfig {
        background_image: "bg.jpg".into(),
        background_opacity: 0.7_f64.to_string(),
        background_blur_px: 8,
        base_url: "/".to_string(),
        ..Default::default()
    };
    let s = background_style_for_site(&site);
    assert!(s.contains("typlog-site-bg"));
    assert!(s.contains("url(\"/bg.jpg\")"));
    assert!(s.contains("opacity: 0.7"));
    assert!(s.contains("blur(8px)"));
}

#[test]
fn background_style_omits_filter_when_blur_zero() {
    let site = SiteConfig {
        background_image: "x.webp".into(),
        background_blur_px: 0,
        base_url: "/".to_string(),
        ..Default::default()
    };
    let s = background_style_for_site(&site);
    assert!(!s.contains("filter:"));
    assert!(!s.contains("blur("));
}

#[test]
fn background_style_exact_text() {
    let site = SiteConfig {
        background_image: " https://x/b.png ".into(),
        background_opacity: 0.25_f64.to_string(),
        background_blur_px: 12,
        ..Default::default()
    };
    assert_eq!(
        background_style_for_site(&site),
        "<style id=\"typlog-site-bg\">\nhtml { background: transparent; }\nbody.typlog-material { background: transparent !important; }\n#typlog-bg {\n  background-image: url(\"https://x/b.png\");\n  background-size: cover;\n  background-position: center;\n  opacity: 0.25;\n  filter: blur(12px);\n  transform: translate3d(0, 0, 0) scale(1.06);\n\n}\n@media (prefers-reduced-motion: reduce) {\n  #typlog-bg { filter: none !important; }\n}\n</style>\n"
    );
}

#[test]
fn background_style_opacity_is_clamped_and_shortest() {
    let full = SiteConfig {
        background_image: "a.png".into(),
        background_opacity: 2.5_f64.to_string(),
        ..Default::default()
    };
    assert!(background_style_for_site(&full).contains("opacity: 1;\n"));
    let zero = SiteConfig {
        background_image: "a.png".into(),
        background_opacity: (-0.3_f64).to_string(),
        ..Default::default()
    };
    assert!(background_style_for_site(&zero).contains("opacity: 0;\n"));
    let fine = SiteConfig {
        background_image: "a.png".into(),
        background_opacity: 0.12345_f64.to_string(),
        ..Default::default()
    };
    assert!(background_style_for_site(&fine).contains("opacity: 0.12345;\n"));
    let one = SiteConfig {
        background_image: "a.png".into(),
        background_opacity: 1.0_f64.to_string(),
        ..Default::default()
    };
    assert!(background_style_for_site(&one).contains("opacity: 1;\n"));
    let none = SiteConfig::default();
    assert_eq!(background_style_for_site(&none), "");
}

#[test]
fn hero_html_escapes_signature() {
    let site = SiteConfig {
        signature: "  Hi <you>  ".into(),
        ..Default::default()
    };
    assert_eq!(
        hero_html(&site),
        "<div class=\"material-index-hero\"><p class=\"material-index-signature\">Hi &lt;you&gt;</p></div>\n"
    );
    assert_eq!(hero_html(&SiteConfig::default()), "");
}

#[test]
fn index_items_fill_template() {
    let site = SiteConfig::default();
    let posts = vec![post("b-1", "A & B", Some((2026, 1, 2))), post("c", "C", None)];
    let out = render_index_post_items(
        &site,
        &posts,
        "<li>{{typlog_post_href}}|{{typlog_post_id}}|{{typlog_post_title}}|{{typlog_post_date}}</li>",
    );
    assert_eq!(
        out,
        "<li>/posts/b-1/index.html|b-1|A &amp; B|<time datetime=\"2026-01-02\">2026-01-02</time></li><li>/posts/c/index.html|c|C|</li>"
    );
}

#[test]
fn index_page_fills_template() {
    let site = SiteConfig {
        title: "My <Blog>".into(),
        language: "en".into(),
        ..Default::default()
    };
    let posts = vec![post("a", "A", None)];
    let out = render_index_html(
        &site,
        &posts,
        "{{typlog_lang}}|{{typlog_title}}|{{typlog_css_href}}|{{typlog_turbo_script}}|{{typlog_home_href}}|{{typlog_background_style}}|{{typlog_hero}}|{{typlog_post_items}}",
        "[{{typlog_post_id}}]",
    );
    assert_eq!(out, "en|My &lt;Blog&gt;|site.css|turbo.min.js|/index.html|||[a]");
    let glass = render_index_html(&site, &posts, "{{typlog_glass_vars}}", "");
    assert_eq!(glass, glass_panel_css_vars(&site));
}

#[test]
fn plain_index_lists_posts() {
    let posts = vec![post("a", "A<", Some((2026, 3, 1))), post("b", "B", None)];
    let out = render_plain_index_html("T&T", &posts);
    assert_eq!(
        out,
        "<!DOCTYPE html>\n<html lang=\"zh-CN\">\n<head>\n<meta charset=\"utf-8\">\n<meta name=\"viewport\" content=\"width=device-width, initial-scale=1\">\n<title>T&amp;T</title>\n</head>\n<body>\n<h1>T&amp;T</h1>\n<ul>\n<li><a href=\"posts/a/index.html\">A&lt;</a> <span>2026-03-01</span></li>\n<li><a href=\"posts/b/index.html\">B</a></li>\n</ul>\n</body>\n</html>\n"
    );
}

#[test]
fn inject_post_keeps_doctype_and_head() {
    let site = SiteConfig::default();
    let meta = post("a", "T", None);
    let raw = "<!DOCTYPE html>\n<html>\n<head>\n<meta charset=\"utf-8\">\n<title>x</title>\n</head>\n<body>\n<p>Hi</p>\n</body>\n</html>\n";
    let out = inject_theme_post_html(raw, &site, &meta);
    assert!(out.starts_with("<!DOCTYPE html>\n<html>\n<head>\n<meta charset=\"utf-8\">\n<title>x</title>\n"));
    assert!(out.ends_with("\n</body>\n</html>\n"));
    assert!(out.contains("<div class=\"material-typst\">\n<p>Hi</p>\n</div>"));
}

/// What comes before the first `<body` (matched case-insensitively).
fn head_part(x: &str) -> &str {
    let end = x.to_ascii_lowercase().find("<body").unwrap_or(x.len());
    &x[..end]
}

#[test]
fn inject_post_second_pass_keeps_head() {
    let site = SiteConfig {
        background_image: "bg.png".into(),
        background_opacity: 0.5_f64.to_string(),
        ..Default::default()
    };
    let meta = post("p", "Post", Some((2026, 3, 1)));
    let raw = "<html><head><title>t</title></head><BODY class=\"x\">\n<p>Hi</p>\n</body></html>";
    let once = inject_theme_post_html(raw, &site, &meta);
    let twice = inject_theme_post_html(&once, &site, &meta);
    assert_eq!(head_part(&twice), head_part(&once));
    assert_eq!(twice.matches("../../site.css").count(), 1);
    assert_eq!(twice.matches("turbo.min.js").count(), 1);
    assert_eq!(twice.matches("typlog-glass-vars").count(), 1);
    assert_eq!(twice.matches("id=\"typlog-site-bg\"").count(), 1);
}

#[test]
fn inject_post_marker_only_in_body_tag_is_lost() {
    let site = SiteConfig::default();
    let meta = post("p", "Post", None);
    let raw = "<head></head><body ../../site.css>x</body>";
    let once = inject_theme_post_html(raw, &site, &meta);
    assert!(!once.contains("../../site.css"));
    let twice = inject_theme_post_html(&once, &site, &meta);
    assert!(head_part(&twice).contains("../../site.css"));
    assert_ne!(head_part(&twice), head_part(&once));
}
