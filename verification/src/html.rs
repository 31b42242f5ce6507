//! HTML fragments of the Material theme: escaping, site-root URLs, the
//! style blocks driven by `config.toml`, the index page and the post shell.
use vstd::prelude::*;
use crate::config::SiteConfig;
use crate::date::{date_iso, PostDate};
use crate::meta::PostMeta;
use crate::text::{
    contains, contains_str, decimal, digit, digit_char, ends_with, find, find_vec,
    lemma_find_in_bounds, lemma_rfind_in_bounds, lower, lower_vec, pad4, push_all, push_char,
    push_decimal, push_range, push_vec_range, replace, replace_str, rfind, rfind_vec,
    starts_with, starts_with_str, str_chars, string_of, string_of_range, sub_vec, trim,
    trim_start_char, trim_start_char_vec, trim_str, trim_vec, vec_is,
};

verus! {

broadcast use vstd::string::group_string_axioms;

// ---------------------------------------------------------------------------
// Escaping
// ---------------------------------------------------------------------------

/// What one character becomes in escaped HTML text.
pub open spec fn escape_char(c: char) -> Seq<char> {
    if c == '&' {
        "&amp;"@
    } else if c == '<' {
        "&lt;"@
    } else if c == '>' {
        "&gt;"@
    } else if c == '"' {
        "&quot;"@
    } else {
        seq![c]
    }
}

/// `s` with `&`, `<`, `>` and `"` replaced by their entities.
pub open spec fn escape(s: Seq<char>) -> Seq<char>
    decreases s.len(),
{
    if s.len() == 0 {
        Seq::empty()
    } else {
        escape(s.drop_last()) + escape_char(s.last())
    }
}

/// Escapes `&`, `<`, `>` and `"` for use in HTML text and attribute values.
pub fn html_escape(s: &str) -> (r: String)
    ensures
        r@ == escape(s@),
{
    let v = str_chars(s);
    escape_vec(&v)
}

/// `html_escape` on a buffer.
pub fn escape_vec(v: &Vec<char>) -> (r: String)
    ensures
        r@ == escape(v@),
{
    let mut out = String::new();
    let mut i: usize = 0;
    while i < v.len()
        invariant
            i <= v@.len(),
            out@ == escape(v@.subrange(0, i as int)),
        decreases v@.len() - i,
    {
        let c = v[i];
        let ghost before = out@;
        if c == '&' {
            out.append("&amp;");
        } else if c == '<' {
            out.append("&lt;");
        } else if c == '>' {
            out.append("&gt;");
        } else if c == '"' {
            out.append("&quot;");
        } else {
            push_char(&mut out, c);
            assert(before.push(c) == before + seq![c]);
        }
        assert(v@.subrange(0, i + 1).drop_last() == v@.subrange(0, i as int));
        i = i + 1;
    }
    assert(v@.subrange(0, v@.len() as int) == v@);
    out
}

// ---------------------------------------------------------------------------
// Site-root URLs
// ---------------------------------------------------------------------------

/// A page or asset URL under the site root: `rel` (trimmed, leading `/`
/// dropped) after the trimmed `base_url`, with exactly one `/` between them;
/// an empty or `/` base gives root-relative URLs.
pub open spec fn site_href_text(base_url: Seq<char>, rel: Seq<char>) -> Seq<char> {
    let r = trim_start_char(trim(rel), '/');
    let b = trim(base_url);
    if b.len() == 0 || b == seq!['/'] {
        if r.len() == 0 {
            seq!['/']
        } else {
            seq!['/'] + r
        }
    } else if ends_with(b, seq!['/']) {
        b + r
    } else {
        b + seq!['/'] + r
    }
}

/// URL of a page or asset under the site root (`rel` has no leading `/`,
/// e.g. `index.html` or `posts/foo/index.html`).
pub fn site_href(site: &SiteConfig, rel: &str) -> (r: String)
    ensures
        r@ == site_href_text(site.base_url@, rel@),
{
    let rv = trim_str(rel);
    proof {
        crate::text::lemma_trim_trimmed(rel@);
    }
    site_href_vec(site, &rv)
}

/// `site_href` with `rel` already trimmed.
fn site_href_vec(site: &SiteConfig, rel: &Vec<char>) -> (r: String)
    requires
        trim(rel@) == rel@,
    ensures
        r@ == site_href_text(site.base_url@, rel@),
{
    let r = trim_start_char_vec(rel, '/');
    let b = trim_str(site.base_url.as_str());
    let mut out = String::new();
    if b.len() == 0 || (b.len() == 1 && b[0] == '/') {
        if b.len() == 1 {
            assert(b@ == seq!['/']);
        }
        push_char(&mut out, '/');
        push_all(&mut out, &r);
        assert(seq!['/'] + r@ == seq!['/'] + r@);
        if r.len() == 0 {
            assert(out@ == seq!['/']);
        }
    } else {
        if b.len() == 1 {
            assert(b@ != seq!['/']);
        }
        push_all(&mut out, &b);
        if b[b.len() - 1] != '/' {
            push_char(&mut out, '/');
            assert(!ends_with(b@, seq!['/'])) by {
                assert(b@.subrange(b@.len() - 1, b@.len() as int)[0] == b@[b@.len() - 1]);
            }
        } else {
            assert(ends_with(b@, seq!['/'])) by {
                assert(b@.subrange(b@.len() - 1, b@.len() as int) == seq!['/']);
            }
        }
        push_all(&mut out, &r);
    }
    assert(trim(rel@) == rel@);
    out
}

/// Site-root asset (e.g. the background image): absolute `http://` and
/// `https://` URLs are kept, anything else goes through `site_href_text`.
pub open spec fn asset_url_text(base_url: Seq<char>, raw: Seq<char>) -> Seq<char> {
    let s = trim(raw);
    if s.len() == 0 {
        Seq::empty()
    } else if starts_with(s, "http://"@) || starts_with(s, "https://"@) {
        s
    } else {
        site_href_text(base_url, s)
    }
}

/// URL of a site-root asset such as the background image.
pub fn site_root_asset_url(site: &SiteConfig, raw: &str) -> (r: String)
    ensures
        r@ == asset_url_text(site.base_url@, raw@),
{
    let s = trim_str(raw);
    if s.len() == 0 {
        return String::new();
    }
    if starts_with_str(&s, "http://") || starts_with_str(&s, "https://") {
        return string_of(&s);
    }
    proof {
        crate::text::lemma_trim_trimmed(raw@);
    }
    let r = site_href_vec(site, &s);
    r
}

/// `url("...")` with `\` and `"` escaped, for a CSS property value.
pub open spec fn css_url_text(url: Seq<char>) -> Seq<char> {
    "url(\""@ + replace(replace(url, "\\"@, "\\\\"@), "\""@, "\\\""@) + "\")"@
}

/// A CSS `url("...")` value for `url`.
pub fn css_url_value(url: &str) -> (r: String)
    ensures
        r@ == css_url_text(url@),
{
    proof {
        reveal_strlit("\\");
        reveal_strlit("\"");
    }
    let u = str_chars(url);
    let a = replace_str(&u, "\\", &str_chars("\\\\"));
    let b = replace_str(&a, "\"", &str_chars("\\\""));
    let mut out = String::from_str("url(\"");
    push_all(&mut out, &b);
    out.append("\")");
    out
}

// ---------------------------------------------------------------------------
// Decimal fractions
// ---------------------------------------------------------------------------

/// A value in ten-thousandths written with four decimals (`{:.4}`).
pub open spec fn fixed4(v: nat) -> Seq<char> {
    decimal(v / 10000) + seq!['.'] + pad4(v % 10000)
}

/// Appends `fixed4(v)`.
fn push_fixed4(out: &mut String, v: u32)
    ensures
        final(out)@ == old(out)@ + fixed4(v as nat),
{
    push_decimal(out, v / 10000);
    push_char(out, '.');
    let f = v % 10000;
    let ghost mid = out@;
    push_char(out, digit_char(f / 1000));
    push_char(out, digit_char((f / 100) % 10));
    push_char(out, digit_char((f / 10) % 10));
    push_char(out, digit_char(f % 10));
    assert(out@ == mid + pad4(f as nat));
    assert(old(out)@ + fixed4(v as nat) == old(out)@ + decimal((v / 10000) as nat) + seq!['.']
        + pad4(f as nat));
}

// ---------------------------------------------------------------------------
// Style blocks
// ---------------------------------------------------------------------------

/// Glass panel opacity, clamped to `[0.35, 1]`, in ten-thousandths.
pub open spec fn glass_base(g: int) -> int {
    if g < 3500 {
        3500
    } else if g > 10000 {
        10000
    } else {
        g
    }
}

/// `max(v, 0.35)` in ten-thousandths.
pub open spec fn at_least_min_glass(v: int) -> int {
    if v < 3500 {
        3500
    } else {
        v
    }
}

/// The `<style id="typlog-glass-vars">` block: the clamped panel opacity and
/// two variants 0.04 and 0.02 lower (never below 0.35), with four decimals.
pub open spec fn glass_css_text(g: int) -> Seq<char> {
    let base = glass_base(g);
    let mid = at_least_min_glass(base - 400);
    let bottom = at_least_min_glass(base - 200);
    "<style id=\"typlog-glass-vars\">\n:root {\n  --glass-body-a: "@ + fixed4(base as nat)
        + ";\n  --glass-body-a-mid: "@ + fixed4(mid as nat) + ";\n  --glass-body-a-bottom: "@
        + fixed4(bottom as nat) + ";\n}\n</style>\n"@
}

/// CSS variables for the glass panels, from `glass_panel_opacity`.
pub fn glass_panel_css_vars(site: &SiteConfig) -> (r: String)
    ensures
        r@ == glass_css_text(site.glass_panel_opacity as int),
{
    let g = site.glass_panel_opacity;
    let base: u32 = if g < 3500 {
        3500
    } else if g > 10000 {
        10000
    } else {
        g
    };
    let mid: u32 = if base - 400 < 3500 {
        3500
    } else {
        base - 400
    };
    let bottom: u32 = if base - 200 < 3500 {
        3500
    } else {
        base - 200
    };
    let mut out = String::from_str("<style id=\"typlog-glass-vars\">\n:root {\n  --glass-body-a: ");
    push_fixed4(&mut out, base);
    out.append(";\n  --glass-body-a-mid: ");
    push_fixed4(&mut out, mid);
    out.append(";\n  --glass-body-a-bottom: ");
    push_fixed4(&mut out, bottom);
    out.append(";\n}\n</style>\n");
    out
}

/// The CSS declarations that depend on the blur radius.
pub open spec fn filter_block_text(blur: nat) -> Seq<char> {
    if blur > 0 {
        "  filter: blur("@ + decimal(blur)
            + "px);\n  transform: translate3d(0, 0, 0) scale(1.06);\n"@
    } else {
        "  transform: translate3d(0, 0, 0);\n"@
    }
}

/// The reduced-motion rule, present only with a blur.
pub open spec fn reduced_motion_text(blur: nat) -> Seq<char> {
    if blur > 0 {
        "@media (prefers-reduced-motion: reduce) {\n  #typlog-bg { filter: none !important; }\n}\n"@
    } else {
        Seq::empty()
    }
}

/// The background opacity clamped to `[0, 1]` and written as `{}` writes a
/// number, given `t`, the configured number as `{}` writes it (`0.7`, `1`,
/// `2.5`, `-0.3`, `-0`, `inf`, `NaN`, ...). That text has no leading zeros,
/// so a number under one starts with `0`: it stays, and so do `1`, `NaN` and
/// `-0`; another negative number gives `0` and a number over one gives `1`.
pub open spec fn clamped_opacity_text(t: Seq<char>) -> Seq<char> {
    if t == "NaN"@ || t == "-0"@ {
        t
    } else if t.len() > 0 && t[0] == '-' {
        "0"@
    } else if (t.len() > 0 && t[0] == '0') || t == "1"@ {
        t
    } else {
        "1"@
    }
}

/// `clamped_opacity_text` computed.
fn clamped_opacity(t: &str) -> (r: String)
    ensures
        r@ == clamped_opacity_text(t@),
{
    let v = str_chars(t);
    if vec_is(&v, "NaN") || vec_is(&v, "-0") {
        string_of(&v)
    } else if v.len() > 0 && v[0] == '-' {
        String::from_str("0")
    } else if (v.len() > 0 && v[0] == '0') || vec_is(&v, "1") {
        string_of(&v)
    } else {
        String::from_str("1")
    }
}

/// The `<style id="typlog-site-bg">` block, empty when no background image is set.
pub open spec fn background_style_text(
    base_url: Seq<char>,
    image: Seq<char>,
    opacity: Seq<char>,
    blur: nat,
) -> Seq<char> {
    let img = trim(image);
    if img.len() == 0 {
        Seq::empty()
    } else {
        "<style id=\"typlog-site-bg\">\nhtml { background: transparent; }\nbody.typlog-material { background: transparent !important; }\n#typlog-bg {\n  background-image: "@
            + css_url_text(asset_url_text(base_url, img))
            + ";\n  background-size: cover;\n  background-position: center;\n  opacity: "@
            + clamped_opacity_text(opacity) + ";\n"@ + filter_block_text(blur)
            + "\n}\n"@ + reduced_motion_text(blur) + "</style>\n"@
    }
}

/// `background_style_text` for a site.
pub open spec fn site_background_text(site: SiteConfig) -> Seq<char> {
    background_style_text(
        site.base_url@,
        site.background_image@,
        site.background_opacity@,
        site.background_blur_px as nat,
    )
}

/// The fixed background layer's style (image, opacity, blur) from `config.toml`.
pub fn background_style_for_site(site: &SiteConfig) -> (r: String)
    ensures
        r@ == site_background_text(*site),
{
    let img = trim_str(site.background_image.as_str());
    if img.len() == 0 {
        return String::new();
    }
    let img_s = string_of(&img);
    let url = site_root_asset_url(site, img_s.as_str());
    proof {
        crate::text::lemma_trim_trimmed(site.background_image@);
    }
    let url_css = css_url_value(url.as_str());
    let opacity = clamped_opacity(site.background_opacity.as_str());
    let blur = site.background_blur_px;
    let mut out = String::from_str(
        "<style id=\"typlog-site-bg\">\nhtml { background: transparent; }\nbody.typlog-material { background: transparent !important; }\n#typlog-bg {\n  background-image: ",
    );
    out.append(url_css.as_str());
    out.append(";\n  background-size: cover;\n  background-position: center;\n  opacity: ");
    out.append(opacity.as_str());
    out.append(";\n");
    if blur > 0 {
        let ghost before = out@;
        out.append("  filter: blur(");
        push_decimal(&mut out, blur);
        out.append("px);\n  transform: translate3d(0, 0, 0) scale(1.06);\n");
        assert(out@ == before + filter_block_text(blur as nat));
    } else {
        out.append("  transform: translate3d(0, 0, 0);\n");
    }
    out.append("\n}\n");
    if blur > 0 {
        out.append(
            "@media (prefers-reduced-motion: reduce) {\n  #typlog-bg { filter: none !important; }\n}\n",
        );
    } else {
        assert(out@ + reduced_motion_text(blur as nat) == out@);
    }
    out.append("</style>\n");
    out
}

/// The signature banner of the index page (empty when no signature is set).
pub open spec fn hero_text(signature: Seq<char>) -> Seq<char> {
    let sig = trim(signature);
    if sig.len() == 0 {
        Seq::empty()
    } else {
        "<div class=\"material-index-hero\"><p class=\"material-index-signature\">"@ + escape(sig)
            + "</p></div>\n"@
    }
}

/// The signature banner of the index page.
pub fn hero_html(site: &SiteConfig) -> (r: String)
    ensures
        r@ == hero_text(site.signature@),
{
    let sig = trim_str(site.signature.as_str());
    if sig.len() == 0 {
        return String::new();
    }
    let mut out = String::from_str(
        "<div class=\"material-index-hero\"><p class=\"material-index-signature\">",
    );
    let e = escape_vec(&sig);
    out.append(e.as_str());
    out.append("</p></div>\n");
    out
}

} // verus!

verus! {

// ---------------------------------------------------------------------------
// Post page shell
// ---------------------------------------------------------------------------

/// Theme links for a post page at `posts/<id>/index.html`.
pub open spec fn post_head_snippet() -> Seq<char> {
    "    <link rel=\"preconnect\" href=\"https://fonts.googleapis.com\">\n    <link rel=\"preconnect\" href=\"https://fonts.gstatic.com\" crossorigin>\n    <link href=\"https://fonts.googleapis.com/css2?family=Roboto:wght@400;500;700&display=swap\" rel=\"stylesheet\">\n    <link rel=\"stylesheet\" href=\"../../site.css\">\n    <script src=\"../../turbo.min.js\" defer></script>\n"@
}

/// The Turbo script alone, for pages that already link the theme CSS.
pub open spec fn post_turbo_line() -> Seq<char> {
    "    <script src=\"../../turbo.min.js\" defer></script>\n"@
}

/// What goes into the `<head>` of a post page: the theme links (or only the
/// Turbo script, when the CSS is already linked), the glass variables and
/// the background style, each only when the page does not already have it.
pub open spec fn head_block(html: Seq<char>, site: SiteConfig) -> Seq<char> {
    let theme = if !contains(html, "../../site.css"@) {
        post_head_snippet()
    } else if !contains(html, "turbo.min.js"@) {
        post_turbo_line()
    } else {
        Seq::empty()
    };
    let glass = if !contains(html, "typlog-glass-vars"@) {
        glass_css_text(site.glass_panel_opacity as int)
    } else {
        Seq::empty()
    };
    let bg = site_background_text(site);
    let bg_part = if bg.len() > 0 && !contains(html, "typlog-site-bg"@) {
        bg
    } else {
        Seq::empty()
    };
    theme + glass + bg_part
}

/// `html` with `head_block` inserted before the first `</head>` (matched
/// case-insensitively); unchanged when there is nothing to insert or no `</head>`.
pub open spec fn with_head_block(html: Seq<char>, site: SiteConfig) -> Seq<char> {
    let inj = head_block(html, site);
    if inj.len() == 0 {
        html
    } else {
        match find(lower(html), "</head>"@) {
            Some(p) => html.subrange(0, p) + inj + html.subrange(p, html.len() as int),
            None => html,
        }
    }
}

/// The date line under the post title.
pub open spec fn date_line_text(date: Option<PostDate>) -> Seq<char> {
    match date {
        Some(d) => "<p class=\"material-article-date\"><time datetime=\""@ + date_iso(d) + "\">"@
            + date_iso(d) + "</time></p>\n"@,
        None => Seq::empty(),
    }
}

/// Background layer, app bar, title block and the wrapped post body.
pub open spec fn post_shell_text(site: SiteConfig, meta: PostMeta, inner: Seq<char>) -> Seq<char> {
    "<div id=\"typlog-bg\" data-turbo-permanent aria-hidden=\"true\"></div>\n<header class=\"material-appbar\"><div class=\"material-appbar-inner\"><a class=\"material-appbar-brand\" href=\""@
        + escape(site_href_text(site.base_url@, "index.html"@)) + "\">"@ + escape(site.title@)
        + "</a></div></header>\n<main id=\"typlog-main\" class=\"material-post-main\">\n<section class=\"material-article-hero\">\n<h1 class=\"material-article-title\">"@
        + escape(meta.title@) + "</h1>\n"@ + date_line_text(meta.date)
        + "</section>\n<div class=\"material-typst\">\n"@ + inner + "\n</div>\n</main>"@
}

/// The themed post page: `with_head_block`, then the content between the
/// first `<body ...>` and the last `</body>` (matched case-insensitively)
/// trimmed and wrapped in `post_shell_text`. Without such a body the page is
/// returned after the head step alone.
pub open spec fn themed_post_text(html: Seq<char>, site: SiteConfig, meta: PostMeta) -> Seq<char> {
    let s = with_head_block(html, site);
    let low = lower(s);
    match find(low, "<body"@) {
        None => s,
        Some(bs) => match find(s.subrange(bs, s.len() as int), ">"@) {
            None => s,
            Some(g) => {
                let inner_start = bs + g + 1;
                match rfind(low, "</body>"@) {
                    None => s,
                    Some(be) => if be <= inner_start {
                        s
                    } else {
                        s.subrange(0, bs) + "<body class=\"typlog-material\">\n"@ + post_shell_text(
                            site,
                            meta,
                            trim(s.subrange(inner_start, be)),
                        ) + "\n</body>"@ + s.subrange(be + 7, s.len() as int)
                    },
                }
            },
        },
    }
}

/// `head_block` computed.
fn head_block_exec(hv: &Vec<char>, site: &SiteConfig) -> (r: String)
    ensures
        r@ == head_block(hv@, *site),
{
    let mut inj = String::new();
    if !contains_str(hv, "../../site.css") {
        inj.append(
            "    <link rel=\"preconnect\" href=\"https://fonts.googleapis.com\">\n    <link rel=\"preconnect\" href=\"https://fonts.gstatic.com\" crossorigin>\n    <link href=\"https://fonts.googleapis.com/css2?family=Roboto:wght@400;500;700&display=swap\" rel=\"stylesheet\">\n    <link rel=\"stylesheet\" href=\"../../site.css\">\n    <script src=\"../../turbo.min.js\" defer></script>\n",
        );
    } else if !contains_str(hv, "turbo.min.js") {
        inj.append("    <script src=\"../../turbo.min.js\" defer></script>\n");
    }
    let ghost theme = inj@;
    if !contains_str(hv, "typlog-glass-vars") {
        let g = glass_panel_css_vars(site);
        inj.append(g.as_str());
    }
    let ghost glass = inj@;
    let bg = background_style_for_site(site);
    if !bg.as_str().is_empty() && !contains_str(hv, "typlog-site-bg") {
        inj.append(bg.as_str());
    }
    inj
}

/// `with_head_block` computed.
fn with_head_block_exec(hv: &Vec<char>, site: &SiteConfig) -> (r: Vec<char>)
    ensures
        r@ == with_head_block(hv@, *site),
{
    let inj_s = head_block_exec(hv, site);
    let inj = str_chars(inj_s.as_str());
    if inj.len() == 0 {
        return sub_vec(hv, 0, hv.len());
    }
    let low = lower_vec(hv);
    let head_close = str_chars("</head>");
    match find_vec(&low, &head_close) {
        Some(p) => {
            proof {
                lemma_find_in_bounds(low@, head_close@, 0);
            }
            let mut out = sub_vec(hv, 0, p);
            push_vec_range(&mut out, &inj, 0, inj.len());
            push_vec_range(&mut out, hv, p, hv.len());
            assert(inj@.subrange(0, inj@.len() as int) == inj@);
            out
        },
        None => sub_vec(hv, 0, hv.len()),
    }
}

/// `date_line_text` computed.
fn date_line(date: &Option<PostDate>) -> (r: String)
    ensures
        r@ == date_line_text(*date),
{
    match date {
        Some(d) => {
            let iso = d.iso_text();
            let mut out = String::from_str("<p class=\"material-article-date\"><time datetime=\"");
            out.append(iso.as_str());
            out.append("\">");
            out.append(iso.as_str());
            out.append("</time></p>\n");
            out
        },
        None => String::new(),
    }
}

/// `post_shell_text` computed.
fn post_shell(site: &SiteConfig, meta: &PostMeta, inner: &Vec<char>) -> (r: String)
    ensures
        r@ == post_shell_text(*site, *meta, inner@),
{
    let home = html_escape(site_href(site, "index.html").as_str());
    let site_title = html_escape(site.title.as_str());
    let post_title = html_escape(meta.title.as_str());
    let date_html = date_line(&meta.date);
    let mut out = String::from_str(
        "<div id=\"typlog-bg\" data-turbo-permanent aria-hidden=\"true\"></div>\n<header class=\"material-appbar\"><div class=\"material-appbar-inner\"><a class=\"material-appbar-brand\" href=\"",
    );
    out.append(home.as_str());
    out.append("\">");
    out.append(site_title.as_str());
    out.append(
        "</a></div></header>\n<main id=\"typlog-main\" class=\"material-post-main\">\n<section class=\"material-article-hero\">\n<h1 class=\"material-article-title\">",
    );
    out.append(post_title.as_str());
    out.append("</h1>\n");
    out.append(date_html.as_str());
    out.append("</section>\n<div class=\"material-typst\">\n");
    push_all(&mut out, inner);
    out.append("\n</div>\n</main>");
    out
}

/// Dresses a post page produced by Typst in the theme: head links and style
/// blocks, then the body wrapped in the app bar, title block and
/// `.material-typst` container.
pub fn inject_theme_post_html(html: &str, site: &SiteConfig, meta: &PostMeta) -> (r: String)
    ensures
        r@ == themed_post_text(html@, *site, *meta),
{
    proof {
        reveal_strlit("</body>");
    }
    let hv = str_chars(html);
    let s = with_head_block_exec(&hv, site);
    let low = lower_vec(&s);
    let body_open = str_chars("<body");
    match find_vec(&low, &body_open) {
        None => string_of(&s),
        Some(bs) => {
            proof {
                lemma_find_in_bounds(low@, body_open@, 0);
            }
            let after = sub_vec(&s, bs, s.len());
            let gt = str_chars(">");
            match find_vec(&after, &gt) {
                None => string_of(&s),
                Some(g) => {
                    proof {
                        lemma_find_in_bounds(after@, gt@, 0);
                        reveal_strlit(">");
                    }
                    let inner_start = bs + g + 1;
                    let body_close = str_chars("</body>");
                    match rfind_vec(&low, &body_close) {
                        None => string_of(&s),
                        Some(be) => {
                            proof {
                                lemma_rfind_in_bounds(low@, body_close@);
                            }
                            if be <= inner_start {
                                string_of(&s)
                            } else {
                                let middle = sub_vec(&s, inner_start, be);
                                let inner = trim_vec(&middle);
                                let mut out = string_of_range(&s, 0, bs);
                                out.append("<body class=\"typlog-material\">\n");
                                let shell = post_shell(site, meta, &inner);
                                out.append(shell.as_str());
                                out.append("\n</body>");
                                push_range(&mut out, &s, be + 7, s.len());
                                out
                            }
                        },
                    }
                },
            }
        },
    }
}

} // verus!

verus! {

// ---------------------------------------------------------------------------
// Index page
// ---------------------------------------------------------------------------

/// `<time>` element of a post in the list (empty without a date).
pub open spec fn list_date_text(date: Option<PostDate>) -> Seq<char> {
    match date {
        Some(d) => "<time datetime=\""@ + date_iso(d) + "\">"@ + date_iso(d) + "</time>"@,
        None => Seq::empty(),
    }
}

/// One post row: the item template with its placeholders replaced, in order,
/// by the escaped post URL, the escaped id, the escaped title and the date.
pub open spec fn post_row_text(site: SiteConfig, p: PostMeta, tpl: Seq<char>) -> Seq<char> {
    let href = escape(site_href_text(site.base_url@, "posts/"@ + p.id@ + "/index.html"@));
    replace(
        replace(
            replace(replace(tpl, "{{typlog_post_href}}"@, href), "{{typlog_post_id}}"@, escape(p.id@)),
            "{{typlog_post_title}}"@,
            escape(p.title@),
        ),
        "{{typlog_post_date}}"@,
        list_date_text(p.date),
    )
}

/// The rows of all posts, in list order.
pub open spec fn post_rows_text(site: SiteConfig, posts: Seq<PostMeta>, tpl: Seq<char>) -> Seq<char>
    decreases posts.len(),
{
    if posts.len() == 0 {
        Seq::empty()
    } else {
        post_rows_text(site, posts.drop_last(), tpl) + post_row_text(site, posts.last(), tpl)
    }
}

/// The list of two runs of posts is the list of the first followed by the
/// list of the second: each post gives its own row.
pub proof fn lemma_post_rows_concat(
    site: SiteConfig,
    a: Seq<PostMeta>,
    b: Seq<PostMeta>,
    tpl: Seq<char>,
)
    ensures
        post_rows_text(site, a + b, tpl) == post_rows_text(site, a, tpl) + post_rows_text(
            site,
            b,
            tpl,
        ),
    decreases b.len(),
{
    if b.len() == 0 {
        assert(a + b =~= a);
        assert(post_rows_text(site, a, tpl) + post_rows_text(site, b, tpl) =~= post_rows_text(
            site,
            a,
            tpl,
        ));
    } else {
        lemma_post_rows_concat(site, a, b.drop_last(), tpl);
        assert((a + b).drop_last() =~= a + b.drop_last());
        assert((a + b).last() == b.last());
        assert(post_rows_text(site, a, tpl) + post_rows_text(site, b.drop_last(), tpl)
            + post_row_text(site, b.last(), tpl) =~= post_rows_text(site, a, tpl) + (
        post_rows_text(site, b.drop_last(), tpl) + post_row_text(site, b.last(), tpl)));
    }
}

/// `list_date_text` computed.
fn list_date(date: &Option<PostDate>) -> (r: String)
    ensures
        r@ == list_date_text(*date),
{
    match date {
        Some(d) => {
            let iso = d.iso_text();
            let mut out = String::from_str("<time datetime=\"");
            out.append(iso.as_str());
            out.append("\">");
            out.append(iso.as_str());
            out.append("</time>");
            out
        },
        None => String::new(),
    }
}

/// `post_row_text` computed.
fn post_row(site: &SiteConfig, p: &PostMeta, tpl: &Vec<char>) -> (r: Vec<char>)
    ensures
        r@ == post_row_text(*site, *p, tpl@),
{
    proof {
        reveal_strlit("{{typlog_post_href}}");
        reveal_strlit("{{typlog_post_id}}");
        reveal_strlit("{{typlog_post_title}}");
        reveal_strlit("{{typlog_post_date}}");
    }
    let mut rel = String::from_str("posts/");
    rel.append(p.id.as_str());
    rel.append("/index.html");
    let href = html_escape(site_href(site, rel.as_str()).as_str());
    let id = html_escape(p.id.as_str());
    let title = html_escape(p.title.as_str());
    let date_html = list_date(&p.date);
    let a = replace_str(tpl, "{{typlog_post_href}}", &str_chars(href.as_str()));
    let b = replace_str(&a, "{{typlog_post_id}}", &str_chars(id.as_str()));
    let c = replace_str(&b, "{{typlog_post_title}}", &str_chars(title.as_str()));
    replace_str(&c, "{{typlog_post_date}}", &str_chars(date_html.as_str()))
}

/// The post list of the index page: one filled-in item template per post.
pub fn render_index_post_items(site: &SiteConfig, posts: &[PostMeta], item_template: &str) -> (r:
    String)
    ensures
        r@ == post_rows_text(*site, posts@, item_template@),
{
    let tpl = str_chars(item_template);
    let mut out = String::new();
    let mut i: usize = 0;
    while i < posts.len()
        invariant
            i <= posts@.len(),
            tpl@ == item_template@,
            out@ == post_rows_text(*site, posts@.subrange(0, i as int), tpl@),
        decreases posts@.len() - i,
    {
        let row = post_row(site, &posts[i], &tpl);
        push_all(&mut out, &row);
        assert(posts@.subrange(0, i + 1).drop_last() == posts@.subrange(0, i as int));
        i = i + 1;
    }
    assert(posts@.subrange(0, posts@.len() as int) == posts@);
    out
}

/// The index page: the page template with its placeholders replaced, in
/// order, by the language, title, theme CSS and Turbo paths, home URL, glass
/// variables, background style, signature banner and post list.
pub open spec fn index_page_text(
    site: SiteConfig,
    posts: Seq<PostMeta>,
    page_tpl: Seq<char>,
    item_tpl: Seq<char>,
) -> Seq<char> {
    let t1 = replace(page_tpl, "{{typlog_lang}}"@, escape(site.language@));
    let t2 = replace(t1, "{{typlog_title}}"@, escape(site.title@));
    let t3 = replace(t2, "{{typlog_css_href}}"@, escape("site.css"@));
    let t4 = replace(t3, "{{typlog_turbo_script}}"@, escape("turbo.min.js"@));
    let t5 = replace(t4, "{{typlog_home_href}}"@, escape(site_href_text(site.base_url@, "index.html"@)));
    let t6 = replace(t5, "{{typlog_glass_vars}}"@, glass_css_text(site.glass_panel_opacity as int));
    let t7 = replace(t6, "{{typlog_background_style}}"@, site_background_text(site));
    let t8 = replace(t7, "{{typlog_hero}}"@, hero_text(site.signature@));
    replace(t8, "{{typlog_post_items}}"@, post_rows_text(site, posts, item_tpl))
}

/// Renders the index page from the page and item templates.
pub fn render_index_html(
    site: &SiteConfig,
    posts: &[PostMeta],
    page_template: &str,
    item_template: &str,
) -> (r: String)
    ensures
        r@ == index_page_text(*site, posts@, page_template@, item_template@),
{
    proof {
        reveal_strlit("{{typlog_lang}}");
        reveal_strlit("{{typlog_title}}");
        reveal_strlit("{{typlog_css_href}}");
        reveal_strlit("{{typlog_turbo_script}}");
        reveal_strlit("{{typlog_home_href}}");
        reveal_strlit("{{typlog_glass_vars}}");
        reveal_strlit("{{typlog_background_style}}");
        reveal_strlit("{{typlog_hero}}");
        reveal_strlit("{{typlog_post_items}}");
    }
    let css_href = html_escape("site.css");
    let turbo_href = html_escape("turbo.min.js");
    let home_href = html_escape(site_href(site, "index.html").as_str());
    let title = html_escape(site.title.as_str());
    let lang = html_escape(site.language.as_str());
    let post_items = render_index_post_items(site, posts, item_template);
    let glass = glass_panel_css_vars(site);
    let bg = background_style_for_site(site);
    let hero = hero_html(site);
    let t0 = str_chars(page_template);
    let t1 = replace_str(&t0, "{{typlog_lang}}", &str_chars(lang.as_str()));
    let t2 = replace_str(&t1, "{{typlog_title}}", &str_chars(title.as_str()));
    let t3 = replace_str(&t2, "{{typlog_css_href}}", &str_chars(css_href.as_str()));
    let t4 = replace_str(&t3, "{{typlog_turbo_script}}", &str_chars(turbo_href.as_str()));
    let t5 = replace_str(&t4, "{{typlog_home_href}}", &str_chars(home_href.as_str()));
    let t6 = replace_str(&t5, "{{typlog_glass_vars}}", &str_chars(glass.as_str()));
    let t7 = replace_str(&t6, "{{typlog_background_style}}", &str_chars(bg.as_str()));
    let t8 = replace_str(&t7, "{{typlog_hero}}", &str_chars(hero.as_str()));
    let t9 = replace_str(&t8, "{{typlog_post_items}}", &str_chars(post_items.as_str()));
    string_of(&t9)
}

// ---------------------------------------------------------------------------
// Plain index page
// ---------------------------------------------------------------------------

/// One list entry of the plain index page.
pub open spec fn plain_row_text(p: PostMeta) -> Seq<char> {
    "<li><a href=\"posts/"@ + p.id@ + "/index.html\">"@ + escape(p.title@) + "</a>"@ + match p.date {
        Some(d) => " <span>"@ + date_iso(d) + "</span>"@,
        None => Seq::empty(),
    } + "</li>\n"@
}

/// The list entries of the plain index page.
pub open spec fn plain_rows_text(posts: Seq<PostMeta>) -> Seq<char>
    decreases posts.len(),
{
    if posts.len() == 0 {
        Seq::empty()
    } else {
        plain_rows_text(posts.drop_last()) + plain_row_text(posts.last())
    }
}

/// The plain index page: a titled list of links to the posts.
pub open spec fn plain_index_text(site_title: Seq<char>, posts: Seq<PostMeta>) -> Seq<char> {
    "<!DOCTYPE html>\n<html lang=\"zh-CN\">\n<head>\n<meta charset=\"utf-8\">\n<meta name=\"viewport\" content=\"width=device-width, initial-scale=1\">\n<title>"@
        + escape(site_title) + "</title>\n</head>\n<body>\n<h1>"@ + escape(site_title)
        + "</h1>\n<ul>\n"@ + plain_rows_text(posts) + "</ul>\n</body>\n</html>\n"@
}

/// Renders the plain index page (no theme): the site title and one link per post.
pub fn render_plain_index_html(site_title: &str, posts: &[PostMeta]) -> (r: String)
    ensures
        r@ == plain_index_text(site_title@, posts@),
{
    let title = html_escape(site_title);
    let mut html = String::from_str(
        "<!DOCTYPE html>\n<html lang=\"zh-CN\">\n<head>\n<meta charset=\"utf-8\">\n<meta name=\"viewport\" content=\"width=device-width, initial-scale=1\">\n<title>",
    );
    html.append(title.as_str());
    html.append("</title>\n</head>\n<body>\n<h1>");
    html.append(title.as_str());
    html.append("</h1>\n<ul>\n");
    let ghost head = html@;
    let mut i: usize = 0;
    while i < posts.len()
        invariant
            i <= posts@.len(),
            html@ == head + plain_rows_text(posts@.subrange(0, i as int)),
        decreases posts@.len() - i,
    {
        let p = &posts[i];
        let ghost before = html@;
        html.append("<li><a href=\"posts/");
        html.append(p.id.as_str());
        html.append("/index.html\">");
        let t = html_escape(p.title.as_str());
        html.append(t.as_str());
        html.append("</a>");
        match &p.date {
            Some(d) => {
                let iso = d.iso_text();
                html.append(" <span>");
                html.append(iso.as_str());
                html.append("</span>");
            },
            None => {},
        }
        html.append("</li>\n");
        assert(html@ == before + plain_row_text(*p));
        assert(posts@.subrange(0, i + 1).drop_last() == posts@.subrange(0, i as int));
        i = i + 1;
    }
    assert(posts@.subrange(0, posts@.len() as int) == posts@);
    html.append("</ul>\n</body>\n</html>\n");
    html
}

} // verus!

verus! {

// ---------------------------------------------------------------------------
// Laws of escaping
// ---------------------------------------------------------------------------

/// Escaping distributes over concatenation.
pub proof fn lemma_escape_concat(a: Seq<char>, b: Seq<char>)
    ensures
        escape(a + b) == escape(a) + escape(b),
    decreases b.len(),
{
    if b.len() == 0 {
        assert(a + b == a);
        assert(escape(b) == Seq::<char>::empty());
        assert(escape(a) + escape(b) == escape(a));
    } else {
        lemma_escape_concat(a, b.drop_last());
        assert((a + b).drop_last() == a + b.drop_last());
        assert((a + b).last() == b.last());
    }
}

/// Escaped text holds no raw `<`, `>` or `"`: it cannot open a tag or close
/// an attribute value.
pub proof fn lemma_escape_no_markup(s: Seq<char>)
    ensures
        forall|i: int|
            0 <= i < escape(s).len() ==> #[trigger] escape(s)[i] != '<' && escape(s)[i] != '>'
                && escape(s)[i] != '"',
    decreases s.len(),
{
    reveal_strlit("&amp;");
    reveal_strlit("&lt;");
    reveal_strlit("&gt;");
    reveal_strlit("&quot;");
    if s.len() > 0 {
        lemma_escape_no_markup(s.drop_last());
        let a = escape(s.drop_last());
        let b = escape_char(s.last());
        assert(escape(s) == a + b);
        assert forall|i: int| 0 <= i < escape(s).len() implies #[trigger] escape(s)[i] != '<'
            && escape(s)[i] != '>' && escape(s)[i] != '"' by {
            if i < a.len() {
                assert(escape(s)[i] == a[i]);
            } else {
                assert(escape(s)[i] == b[i - a.len()]);
            }
        }
    }
}

/// Text without `&`, `<`, `>` and `"` is left unchanged by escaping.
pub proof fn lemma_escape_plain(s: Seq<char>)
    requires
        forall|i: int|
            0 <= i < s.len() ==> #[trigger] s[i] != '&' && s[i] != '<' && s[i] != '>' && s[i]
                != '"',
    ensures
        escape(s) == s,
    decreases s.len(),
{
    if s.len() > 0 {
        lemma_escape_plain(s.drop_last());
        assert(s.drop_last() + seq![s.last()] == s);
    }
}

/// With a root base URL, a clean relative path `rel` (no surrounding white
/// space, no leading `/`, not empty) becomes `/` followed by `rel`.
pub proof fn lemma_site_href_root(base_url: Seq<char>, rel: Seq<char>)
    requires
        trim(base_url).len() == 0 || trim(base_url) == seq!['/'],
        rel.len() > 0,
        !crate::text::is_ws(rel[0]),
        !crate::text::is_ws(rel.last()),
        rel[0] != '/',
    ensures
        site_href_text(base_url, rel) == seq!['/'] + rel,
{
    crate::text::lemma_trim_of_clean(rel);
    assert(crate::text::char_skip(rel, '/', 0) == 0);
    assert(rel.subrange(0, rel.len() as int) == rel);
}

} // verus!

verus! {

// ---------------------------------------------------------------------------
// Laws of the post page
// ---------------------------------------------------------------------------

/// What is inserted into the head starts with a blank or a `<`.
proof fn lemma_head_block_first_char(html: Seq<char>, site: SiteConfig)
    requires
        head_block(html, site).len() > 0,
    ensures
        head_block(html, site)[0] == ' ' || head_block(html, site)[0] == '<',
{
    reveal_strlit(
        "    <link rel=\"preconnect\" href=\"https://fonts.googleapis.com\">\n    <link rel=\"preconnect\" href=\"https://fonts.gstatic.com\" crossorigin>\n    <link href=\"https://fonts.googleapis.com/css2?family=Roboto:wght@400;500;700&display=swap\" rel=\"stylesheet\">\n    <link rel=\"stylesheet\" href=\"../../site.css\">\n    <script src=\"../../turbo.min.js\" defer></script>\n",
    );
    reveal_strlit("    <script src=\"../../turbo.min.js\" defer></script>\n");
    reveal_strlit("<style id=\"typlog-glass-vars\">\n:root {\n  --glass-body-a: ");
    reveal_strlit(
        "<style id=\"typlog-site-bg\">\nhtml { background: transparent; }\nbody.typlog-material { background: transparent !important; }\n#typlog-bg {\n  background-image: ",
    );
    let theme = if !contains(html, "../../site.css"@) {
        post_head_snippet()
    } else if !contains(html, "turbo.min.js"@) {
        post_turbo_line()
    } else {
        Seq::empty()
    };
    let glass = if !contains(html, "typlog-glass-vars"@) {
        glass_css_text(site.glass_panel_opacity as int)
    } else {
        Seq::empty()
    };
    let bg = site_background_text(site);
    let bg_part = if bg.len() > 0 && !contains(html, "typlog-site-bg"@) {
        bg
    } else {
        Seq::empty()
    };
    let b = head_block(html, site);
    assert(b == theme + glass + bg_part);
    if theme.len() > 0 {
        assert(b[0] == theme[0]);
    } else if glass.len() > 0 {
        assert(b[0] == glass[0]);
    } else {
        assert(b[0] == bg_part[0]);
    }
}

/// Where `<body` does not start before the first `</head>` (matched
/// case-insensitively), the themed page starts with everything before that
/// `</head>`: the doctype and the head are kept.
pub proof fn lemma_themed_post_keeps_head(html: Seq<char>, site: SiteConfig, meta: PostMeta, p: int)
    requires
        find(lower(html), "</head>"@) == Some(p),
        forall|j: int| 0 <= j < p ==> !crate::text::occurs_at(lower(html), "<body"@, j),
    ensures
        starts_with(themed_post_text(html, site, meta), html.subrange(0, p)),
{
    reveal_strlit("<body");
    reveal_strlit("</head>");
    lemma_find_in_bounds(lower(html), "</head>"@, 0);
    let s = with_head_block(html, site);
    let inj = head_block(html, site);
    let low = lower(s);
    let lh = lower(html);
    let pre = html.subrange(0, p);
    assert(p + 7 <= html.len());
    if inj.len() > 0 {
        assert(s == html.subrange(0, p) + inj + html.subrange(p, html.len() as int));
        assert(s[p] == inj[0]);
    } else {
        assert(s == html);
    }
    assert(s.len() >= p);
    assert forall|k: int| 0 <= k < p implies #[trigger] s[k] == html[k] by {
        if inj.len() > 0 {
            assert(s[k] == html.subrange(0, p)[k]);
        }
    }
    assert(s.subrange(0, p) =~= pre);
    assert forall|j: int| 0 <= j < p implies !crate::text::occurs_at(low, "<body"@, j) by {
        if crate::text::occurs_at(low, "<body"@, j) {
            if inj.len() == 0 {
                assert(low == lh);
            } else if j + 5 <= p {
                assert forall|k: int| j <= k < j + 5 implies #[trigger] low[k] == lh[k] by {
                    assert(s[k] == html[k]);
                }
                assert(lh.subrange(j, j + 5) =~= low.subrange(j, j + 5));
                assert(crate::text::occurs_at(lh, "<body"@, j));
            } else {
                lemma_head_block_first_char(html, site);
                assert(low[p] == crate::text::ascii_lower(s[p]));
                assert(low.subrange(j, j + 5)[p - j] == low[p]);
                assert("<body"@[p - j] == low[p]);
            }
        }
    }
    lemma_find_in_bounds(low, "<body"@, 0);
    let t = themed_post_text(html, site, meta);
    match find(low, "<body"@) {
        None => {
            assert(t == s);
        },
        Some(bs) => {
            assert(bs >= p);
            match find(s.subrange(bs, s.len() as int), ">"@) {
                None => {
                    assert(t == s);
                },
                Some(g) => {
                    let inner_start = bs + g + 1;
                    match rfind(low, "</body>"@) {
                        None => {
                            assert(t == s);
                        },
                        Some(be) => {
                            if be <= inner_start {
                                assert(t == s);
                            } else {
                                let rest = "<body class=\"typlog-material\">\n"@ + post_shell_text(
                                    site,
                                    meta,
                                    trim(s.subrange(inner_start, be)),
                                ) + "\n</body>"@ + s.subrange(be + 7, s.len() as int);
                                assert(t == s.subrange(0, bs) + rest);
                                assert(t.subrange(0, p) =~= pre);
                            }
                        },
                    }
                },
            }
        },
    }
}

} // verus!

verus! {

/// The part of a page before its first `<body` (matched case-insensitively),
/// or the whole page when it has none.
pub open spec fn before_body(x: Seq<char>) -> Seq<char> {
    match find(lower(x), "<body"@) {
        Some(k) => x.subrange(0, k),
        None => x,
    }
}

/// An occurrence makes `contains` true.
proof fn lemma_occurs_contains(s: Seq<char>, m: Seq<char>, k: int)
    requires
        crate::text::occurs_at(s, m, k),
    ensures
        contains(s, m),
{
    crate::text::lemma_find_first(s, m, 0, k);
}

/// What a text contains, a longer text with it in front or behind contains too.
proof fn lemma_contains_concat(a: Seq<char>, b: Seq<char>, m: Seq<char>)
    ensures
        contains(a, m) ==> contains(a + b, m),
        contains(b, m) ==> contains(a + b, m),
{
    lemma_find_in_bounds(a, m, 0);
    lemma_find_in_bounds(b, m, 0);
    if contains(a, m) {
        let k = find(a, m)->0;
        assert((a + b).subrange(k, k + m.len()) =~= a.subrange(k, k + m.len()));
        lemma_occurs_contains(a + b, m, k);
    }
    if contains(b, m) {
        let k = find(b, m)->0;
        assert((a + b).subrange(a.len() + k, a.len() + k + m.len()) =~= b.subrange(k, k + m.len()));
        lemma_occurs_contains(a + b, m, a.len() + k);
    }
}

/// A text that starts with `h` contains what `h` contains.
proof fn lemma_contains_prefix(s: Seq<char>, h: Seq<char>, m: Seq<char>)
    requires
        h.len() <= s.len(),
        s.subrange(0, h.len() as int) == h,
        contains(h, m),
    ensures
        contains(s, m),
{
    lemma_contains_concat(h, s.subrange(h.len() as int, s.len() as int), m);
    assert(h + s.subrange(h.len() as int, s.len() as int) =~= s);
}

/// The theme links, the Turbo line and the two style blocks carry their markers.
proof fn lemma_head_texts_carry_markers(site: SiteConfig)
    ensures
        contains(post_head_snippet(), "../../site.css"@),
        contains(post_head_snippet(), "turbo.min.js"@),
        contains(post_turbo_line(), "turbo.min.js"@),
        contains(glass_css_text(site.glass_panel_opacity as int), "typlog-glass-vars"@),
        site_background_text(site).len() > 0 ==> contains(
            site_background_text(site),
            "typlog-site-bg"@,
        ),
{
    reveal_strlit(
        "    <link rel=\"preconnect\" href=\"https://fonts.googleapis.com\">\n    <link rel=\"preconnect\" href=\"https://fonts.gstatic.com\" crossorigin>\n    <link href=\"https://fonts.googleapis.com/css2?family=Roboto:wght@400;500;700&display=swap\" rel=\"stylesheet\">\n    <link rel=\"stylesheet\" href=\"../../site.css\">\n    <script src=\"../../turbo.min.js\" defer></script>\n",
    );
    reveal_strlit("    <script src=\"../../turbo.min.js\" defer></script>\n");
    reveal_strlit("<style id=\"typlog-glass-vars\">\n:root {\n  --glass-body-a: ");
    reveal_strlit(
        "<style id=\"typlog-site-bg\">\nhtml { background: transparent; }\nbody.typlog-material { background: transparent !important; }\n#typlog-bg {\n  background-image: ",
    );
    reveal_strlit("../../site.css");
    reveal_strlit("turbo.min.js");
    reveal_strlit("typlog-glass-vars");
    reveal_strlit("typlog-site-bg");
    let h = post_head_snippet();
    assert(h.subrange(283, 297) =~= "../../site.css"@);
    lemma_occurs_contains(h, "../../site.css"@, 283);
    assert(h.subrange(323, 335) =~= "turbo.min.js"@);
    lemma_occurs_contains(h, "turbo.min.js"@, 323);
    let t = post_turbo_line();
    assert(t.subrange(23, 35) =~= "turbo.min.js"@);
    lemma_occurs_contains(t, "turbo.min.js"@, 23);
    let g0 = "<style id=\"typlog-glass-vars\">\n:root {\n  --glass-body-a: "@;
    let g = glass_css_text(site.glass_panel_opacity as int);
    assert(g0.subrange(11, 28) =~= "typlog-glass-vars"@);
    lemma_occurs_contains(g0, "typlog-glass-vars"@, 11);
    assert(g.subrange(0, g0.len() as int) =~= g0);
    lemma_contains_prefix(g, g0, "typlog-glass-vars"@);
    let bg = site_background_text(site);
    if bg.len() > 0 {
        let b0 = "<style id=\"typlog-site-bg\">\nhtml { background: transparent; }\nbody.typlog-material { background: transparent !important; }\n#typlog-bg {\n  background-image: "@;
        assert(b0.subrange(11, 25) =~= "typlog-site-bg"@);
        lemma_occurs_contains(b0, "typlog-site-bg"@, 11);
        assert(bg.subrange(0, b0.len() as int) =~= b0);
        lemma_contains_prefix(bg, b0, "typlog-site-bg"@);
    }
}

/// What is inserted into the head ends with a line break.
proof fn lemma_head_block_last_char(html: Seq<char>, site: SiteConfig)
    requires
        head_block(html, site).len() > 0,
    ensures
        head_block(html, site).last() == '\n',
{
    reveal_strlit(
        "    <link rel=\"preconnect\" href=\"https://fonts.googleapis.com\">\n    <link rel=\"preconnect\" href=\"https://fonts.gstatic.com\" crossorigin>\n    <link href=\"https://fonts.googleapis.com/css2?family=Roboto:wght@400;500;700&display=swap\" rel=\"stylesheet\">\n    <link rel=\"stylesheet\" href=\"../../site.css\">\n    <script src=\"../../turbo.min.js\" defer></script>\n",
    );
    reveal_strlit("    <script src=\"../../turbo.min.js\" defer></script>\n");
    reveal_strlit(";\n}\n</style>\n");
    reveal_strlit("</style>\n");
    let theme = if !contains(html, "../../site.css"@) {
        post_head_snippet()
    } else if !contains(html, "turbo.min.js"@) {
        post_turbo_line()
    } else {
        Seq::empty()
    };
    let glass = if !contains(html, "typlog-glass-vars"@) {
        glass_css_text(site.glass_panel_opacity as int)
    } else {
        Seq::empty()
    };
    let bg = site_background_text(site);
    let bg_part = if bg.len() > 0 && !contains(html, "typlog-site-bg"@) {
        bg
    } else {
        Seq::empty()
    };
    let b = head_block(html, site);
    assert(b == theme + glass + bg_part);
    if bg_part.len() > 0 {
        assert(b.last() == bg_part.last());
    } else if glass.len() > 0 {
        assert(b.last() == glass.last());
    } else {
        assert(b.last() == theme.last());
    }
}

/// The body step rewrites from the first `<body` on: it keeps what comes
/// before the body of the page with its head text inserted.
proof fn lemma_body_step_keeps_before_body(x0: Seq<char>, site: SiteConfig, meta: PostMeta)
    ensures
        before_body(themed_post_text(x0, site, meta)) == before_body(with_head_block(x0, site)),
{
    reveal_strlit("<body");
    reveal_strlit("<body class=\"typlog-material\">\n");
    let t = themed_post_text(x0, site, meta);
    let x = with_head_block(x0, site);
    let low = lower(x);
    lemma_find_in_bounds(low, "<body"@, 0);
    match find(low, "<body"@) {
        None => {
            assert(t == x);
        },
        Some(bs) => {
            if t != x {
                match find(x.subrange(bs, x.len() as int), ">"@) {
                    None => {},
                    Some(g) => {
                        let inner_start = bs + g + 1;
                        match rfind(low, "</body>"@) {
                            None => {},
                            Some(be) => {
                                let rest = "<body class=\"typlog-material\">\n"@ + post_shell_text(
                                    site,
                                    meta,
                                    trim(x.subrange(inner_start, be)),
                                ) + "\n</body>"@ + x.subrange(be + 7, x.len() as int);
                                assert(t == x.subrange(0, bs) + rest);
                                let lt = lower(t);
                                assert forall|k: int| 0 <= k < bs implies #[trigger] lt[k] == low[k] by {
                                    assert(t[k] == x[k]);
                                }
                                assert forall|k: int| bs <= k < bs + 5 implies #[trigger] lt[k]
                                    == "<body"@[k - bs] by {
                                    assert(t[k] == rest[k - bs]);
                                }
                                assert(lt.subrange(bs, bs + 5) =~= "<body"@);
                                assert forall|j: int| 0 <= j < bs implies !crate::text::occurs_at(
                                    lt,
                                    "<body"@,
                                    j,
                                ) by {
                                    if crate::text::occurs_at(lt, "<body"@, j) {
                                        if j + 5 <= bs {
                                            assert forall|k: int| j <= k < j + 5 implies lt[k]
                                                == low[k] by {
                                                assert(t[k] == x[k]);
                                            }
                                            assert(lt.subrange(j, j + 5) =~= low.subrange(j, j + 5));
                                            assert(crate::text::occurs_at(low, "<body"@, j));
                                        } else {
                                            assert(t[bs] == rest[0]);
                                            assert(lt[bs] == '<');
                                            assert(lt.subrange(j, j + 5)[bs - j] == lt[bs]);
                                            assert("<body"@[bs - j] == lt[bs]);
                                        }
                                    }
                                }
                                crate::text::lemma_find_first(lt, "<body"@, 0, bs);
                                assert(t.subrange(0, bs) =~= x.subrange(0, bs));
                            },
                        }
                    },
                }
            }
        },
    }
}

/// Whether a pass puts theme text ahead of the page's body: something is
/// missing from the page (`head_block` is not empty) and its first
/// `</head>` (matched case-insensitively) comes before any `<body`.
pub open spec fn head_insert_before_body(x: Seq<char>, site: SiteConfig) -> bool {
    head_block(x, site).len() > 0 && match find(lower(x), "</head>"@) {
        None => false,
        Some(q) => match find(lower(x), "<body"@) {
            None => true,
            Some(b) => q < b,
        },
    }
}

/// A pass keeps what comes before the page's body unless it puts theme
/// text there: the head text goes in before `</head>` and the body step
/// rewrites from the first `<body` on.
pub proof fn lemma_themed_keeps_before_body(x: Seq<char>, site: SiteConfig, meta: PostMeta)
    requires
        !head_insert_before_body(x, site),
    ensures
        before_body(themed_post_text(x, site, meta)) == before_body(x),
{
    reveal_strlit("<body");
    reveal_strlit("</head>");
    lemma_body_step_keeps_before_body(x, site, meta);
    let s = with_head_block(x, site);
    let inj = head_block(x, site);
    let low = lower(x);
    if s != x {
        lemma_find_in_bounds(low, "</head>"@, 0);
        lemma_find_in_bounds(low, "<body"@, 0);
        assert(inj.len() > 0);
        assert(find(low, "</head>"@) is Some);
        let q = find(low, "</head>"@)->Some_0;
        assert(find(low, "<body"@) is Some);
        let b = find(low, "<body"@)->Some_0;
        assert(q >= b);
        if q == b {
            assert(low.subrange(b, b + 5)[1] == low[b + 1]);
            assert(low.subrange(q, q + 7)[1] == low[q + 1]);
            assert(false);
        }
        assert(s == x.subrange(0, q) + inj + x.subrange(q, x.len() as int));
        // `</head>` starts with `<`, which no later character of `<body` is.
        if q < b + 5 {
            assert(low.subrange(b, b + 5)[q - b] == low[q]);
            assert(low.subrange(q, q + 7)[0] == low[q]);
            assert(false);
        }
        let ls = lower(s);
        assert forall|k: int| 0 <= k < q implies #[trigger] ls[k] == low[k] by {
            assert(s[k] == x[k]);
        }
        assert(ls.subrange(b, b + 5) =~= low.subrange(b, b + 5));
        assert forall|j: int| 0 <= j < b implies !crate::text::occurs_at(ls, "<body"@, j) by {
            if crate::text::occurs_at(ls, "<body"@, j) {
                assert(ls.subrange(j, j + 5) =~= low.subrange(j, j + 5));
                assert(crate::text::occurs_at(low, "<body"@, j));
                assert(false);
            }
        }
        crate::text::lemma_find_first(ls, "<body"@, 0, b);
        assert(s.subrange(0, b) =~= x.subrange(0, b));
    }
}

/// Dressing a page twice leaves what comes before its body as the first
/// pass left it, unless the first pass left a theme marker out of the page
/// and the page still has a `</head>` before its body (as when a marker
/// stood only inside the `<body ...>` tag, which the first pass replaces).
pub proof fn lemma_themed_post_twice(html: Seq<char>, site: SiteConfig, meta: PostMeta)
    requires
        !head_insert_before_body(themed_post_text(html, site, meta), site),
    ensures
        before_body(themed_post_text(themed_post_text(html, site, meta), site, meta))
            == before_body(themed_post_text(html, site, meta)),
{
    lemma_themed_keeps_before_body(themed_post_text(html, site, meta), site, meta);
}

/// The same law read on the page itself: a page whose first `</head>`
/// (matched case-insensitively) comes before any `<body`, whose theme
/// markers (`../../site.css`, `turbo.min.js`, `typlog-glass-vars`,
/// `typlog-site-bg`), where present, stand before that `</head>`, and whose
/// inserted head text holds no `<body` keeps every marker through the first
/// pass, so the second pass adds no second theme link, Turbo script, glass
/// block or background block before the body.
pub proof fn lemma_themed_post_second_pass(html: Seq<char>, site: SiteConfig, meta: PostMeta, p: int)
    requires
        find(lower(html), "</head>"@) == Some(p),
        forall|j: int| 0 <= j < p ==> !crate::text::occurs_at(lower(html), "<body"@, j),
        !contains(lower(head_block(html, site)), "<body"@),
        contains(html, "../../site.css"@) ==> contains(html.subrange(0, p), "../../site.css"@),
        contains(html, "turbo.min.js"@) ==> contains(html.subrange(0, p), "turbo.min.js"@),
        contains(html, "typlog-glass-vars"@) ==> contains(
            html.subrange(0, p),
            "typlog-glass-vars"@,
        ),
        contains(html, "typlog-site-bg"@) ==> contains(html.subrange(0, p), "typlog-site-bg"@),
    ensures
        before_body(themed_post_text(themed_post_text(html, site, meta), site, meta))
            == before_body(themed_post_text(html, site, meta)),
{
    reveal_strlit("<body");
    reveal_strlit("</head>");
    let r1 = themed_post_text(html, site, meta);
    let h = head_prefix_of_first_pass(html, site, meta, p);
    lemma_head_texts_carry_markers(site);
    let pre = html.subrange(0, p);
    let inj = head_block(html, site);
    let theme = if !contains(html, "../../site.css"@) {
        post_head_snippet()
    } else if !contains(html, "turbo.min.js"@) {
        post_turbo_line()
    } else {
        Seq::empty()
    };
    let glass = if !contains(html, "typlog-glass-vars"@) {
        glass_css_text(site.glass_panel_opacity as int)
    } else {
        Seq::empty()
    };
    let bg = site_background_text(site);
    let bg_part = if bg.len() > 0 && !contains(html, "typlog-site-bg"@) {
        bg
    } else {
        Seq::empty()
    };
    assert(inj == theme + glass + bg_part);
    assert(h == pre + inj);
    lemma_contains_concat(theme, glass, "../../site.css"@);
    lemma_contains_concat(theme, glass, "turbo.min.js"@);
    lemma_contains_concat(theme, glass, "typlog-glass-vars"@);
    lemma_contains_concat(theme + glass, bg_part, "../../site.css"@);
    lemma_contains_concat(theme + glass, bg_part, "turbo.min.js"@);
    lemma_contains_concat(theme + glass, bg_part, "typlog-glass-vars"@);
    lemma_contains_concat(theme + glass, bg_part, "typlog-site-bg"@);
    lemma_contains_concat(pre, inj, "../../site.css"@);
    lemma_contains_concat(pre, inj, "turbo.min.js"@);
    lemma_contains_concat(pre, inj, "typlog-glass-vars"@);
    lemma_contains_concat(pre, inj, "typlog-site-bg"@);
    assert(contains(h, "../../site.css"@));
    assert(contains(h, "turbo.min.js"@));
    assert(contains(h, "typlog-glass-vars"@));
    assert(bg.len() > 0 ==> contains(h, "typlog-site-bg"@));
    lemma_contains_prefix(r1, h, "../../site.css"@);
    lemma_contains_prefix(r1, h, "turbo.min.js"@);
    lemma_contains_prefix(r1, h, "typlog-glass-vars"@);
    if bg.len() > 0 {
        lemma_contains_prefix(r1, h, "typlog-site-bg"@);
    }
    assert(head_block(r1, site) =~= Seq::<char>::empty());
    lemma_themed_keeps_before_body(r1, site, meta);
}

/// After the first pass, the page starts with what came before its first
/// `</head>` followed by the inserted head text.
#[verifier::rlimit(40)]
proof fn head_prefix_of_first_pass(html: Seq<char>, site: SiteConfig, meta: PostMeta, p: int) -> (h:
    Seq<char>)
    requires
        find(lower(html), "</head>"@) == Some(p),
        forall|j: int| 0 <= j < p ==> !crate::text::occurs_at(lower(html), "<body"@, j),
        !contains(lower(head_block(html, site)), "<body"@),
    ensures
        h == html.subrange(0, p) + head_block(html, site),
        h.len() <= themed_post_text(html, site, meta).len(),
        themed_post_text(html, site, meta).subrange(0, h.len() as int) == h,
{
    reveal_strlit("<body");
    reveal_strlit("</head>");
    lemma_find_in_bounds(lower(html), "</head>"@, 0);
    let s = with_head_block(html, site);
    let inj = head_block(html, site);
    let low = lower(s);
    let lh = lower(html);
    let h = html.subrange(0, p) + inj;
    let n = h.len() as int;
    assert(p + 7 <= html.len());
    if inj.len() > 0 {
        assert(s == html.subrange(0, p) + inj + html.subrange(p, html.len() as int));
    } else {
        assert(s == html);
    }
    assert(s.subrange(0, n) =~= h);
    assert forall|k: int| 0 <= k < n implies #[trigger] low[k] == lower(h)[k] by {
        assert(s[k] == h[k]);
    }
    let li = lower(inj);
    lemma_find_in_bounds(li, "<body"@, 0);
    assert forall|j: int| 0 <= j < n implies !crate::text::occurs_at(low, "<body"@, j) by {
        if crate::text::occurs_at(low, "<body"@, j) {
            if inj.len() == 0 {
                assert(low == lh);
                assert(false);
            } else if j + 5 <= p {
                assert forall|k: int| j <= k < j + 5 implies #[trigger] low[k] == lh[k] by {
                    assert(s[k] == html[k]);
                }
                assert(lh.subrange(j, j + 5) =~= low.subrange(j, j + 5));
                assert(crate::text::occurs_at(lh, "<body"@, j));
                assert(false);
            } else if j < p {
                lemma_head_block_first_char(html, site);
                assert(s[p] == inj[0]);
                assert(low[p] == crate::text::ascii_lower(s[p]));
                assert(low.subrange(j, j + 5)[p - j] == low[p]);
                assert("<body"@[p - j] == low[p]);
                assert(false);
            } else if j + 5 <= n {
                assert forall|k: int| j <= k < j + 5 implies #[trigger] low[k] == li[k - p] by {
                    assert(s[k] == inj[k - p]);
                }
                assert(li.subrange(j - p, j - p + 5) =~= low.subrange(j, j + 5));
                assert(crate::text::occurs_at(li, "<body"@, j - p));
                assert(false);
            } else {
                lemma_head_block_last_char(html, site);
                assert(s[n - 1] == inj[inj.len() - 1]);
                assert(low[n - 1] == crate::text::ascii_lower(s[n - 1]));
                assert(low.subrange(j, j + 5)[n - 1 - j] == low[n - 1]);
                assert("<body"@[n - 1 - j] == low[n - 1]);
                assert(false);
            }
        }
    }
    let t = themed_post_text(html, site, meta);
    lemma_find_in_bounds(low, "<body"@, 0);
    match find(low, "<body"@) {
        None => {
            assert(t == s);
        },
        Some(bs) => {
            assert(bs >= n);
            if t != s {
                match find(s.subrange(bs, s.len() as int), ">"@) {
                    None => {},
                    Some(g) => {
                        let inner_start = bs + g + 1;
                        match rfind(low, "</body>"@) {
                            None => {},
                            Some(be) => {
                                let rest = "<body class=\"typlog-material\">\n"@ + post_shell_text(
                                    site,
                                    meta,
                                    trim(s.subrange(inner_start, be)),
                                ) + "\n</body>"@ + s.subrange(be + 7, s.len() as int);
                                assert(t == s.subrange(0, bs) + rest);
                                assert(t.subrange(0, n) =~= h);
                            },
                        }
                    },
                }
            }
        },
    }
    h
}


// ---------------------------------------------------------------------------
// Links under the configured base URL
// ---------------------------------------------------------------------------

/// `s` holds none of `&`, `<`, `>`, `"`, `\` and `{`: HTML escaping, CSS
/// quoting and template placeholders leave it alone.
pub open spec fn plain_text(s: Seq<char>) -> bool {
    forall|k: int|
        0 <= k < s.len() ==> {
            let c = #[trigger] s[k];
            c != '&' && c != '<' && c != '>' && c != '"' && c != '\\' && c != '{'
        }
}

/// A text without the first character of `pat` does not contain `pat`.
proof fn lemma_missing_first_char(s: Seq<char>, pat: Seq<char>)
    requires
        pat.len() > 0,
        forall|k: int| 0 <= k < s.len() ==> s[k] != pat[0],
    ensures
        !contains(s, pat),
{
    lemma_find_in_bounds(s, pat, 0);
    if let Some(k) = find(s, pat) {
        assert(s.subrange(k, k + pat.len())[0] == s[k]);
    }
}

/// Replacing a whole text that is the pattern gives the replacement.
proof fn lemma_replace_whole(pat: Seq<char>, rep: Seq<char>)
    requires
        pat.len() > 0,
    ensures
        replace(pat, pat, rep) == rep,
{
    assert(pat.subrange(0, pat.len() as int) =~= pat);
    assert(crate::text::occurs_at(pat, pat, 0));
    assert(crate::text::replace_from(pat, pat, rep, pat.len() as int) == Seq::<char>::empty());
    assert(rep + Seq::<char>::empty() =~= rep);
}

/// A relative path `r` (no surrounding blanks, no leading `/`) under the
/// base URL `base`: the trimmed base, a `/` unless it already ends with
/// one, then `r`.
pub proof fn lemma_site_href_relative(base: Seq<char>, r: Seq<char>)
    requires
        r.len() > 0,
        !crate::text::is_ws(r[0]),
        !crate::text::is_ws(r.last()),
        r[0] != '/',
    ensures
        site_href_text(base, r) == (if trim(base).len() > 0 && trim(base).last() == '/' {
            trim(base)
        } else {
            trim(base) + seq!['/']
        }) + r,
{
    crate::text::lemma_trim_of_clean(r);
    assert(crate::text::char_skip(r, '/', 0) == 0);
    assert(trim_start_char(r, '/') =~= r);
    let b = trim(base);
    if b.len() > 0 && b.last() == '/' {
        assert(ends_with(b, seq!['/'])) by {
            assert(b.subrange(b.len() - 1, b.len() as int) =~= seq!['/']);
        }
        if b == seq!['/'] {
            assert(seq!['/'] + r =~= b + r);
        }
    } else {
        if ends_with(b, seq!['/']) {
            assert(b.subrange(b.len() - 1, b.len() as int)[0] == b.last());
        }
        if b.len() == 0 {
            assert(b + seq!['/'] =~= seq!['/']);
        }
    }
}

/// The link of a post row is the post's page under the site's base URL:
/// for a base such as `/blog/` or `https://example.com/blog`, the row made
/// from the template `{{typlog_post_href}}` is the base, a `/` unless it
/// ends with one, then `posts/<id>/index.html`.
pub proof fn lemma_post_row_link(site: SiteConfig, p: PostMeta)
    requires
        plain_text(trim(site.base_url@)),
        crate::post::valid_id(p.id@),
    ensures
        post_row_text(site, p, "{{typlog_post_href}}"@) == (if trim(site.base_url@).len() > 0
            && trim(site.base_url@).last() == '/' {
            trim(site.base_url@)
        } else {
            trim(site.base_url@) + seq!['/']
        }) + "posts/"@ + p.id@ + "/index.html"@,
{
    reveal_strlit("posts/");
    reveal_strlit("/index.html");
    reveal_strlit("{{typlog_post_href}}");
    reveal_strlit("{{typlog_post_id}}");
    reveal_strlit("{{typlog_post_title}}");
    reveal_strlit("{{typlog_post_date}}");
    let b = trim(site.base_url@);
    let d = if b.len() > 0 && b.last() == '/' {
        b
    } else {
        b + seq!['/']
    };
    let r = "posts/"@ + p.id@ + "/index.html"@;
    assert(r[0] == 'p');
    assert(r.last() == 'l');
    lemma_site_href_relative(site.base_url@, r);
    let raw = d + r;
    assert(plain_text(raw)) by {
        assert forall|k: int| 0 <= k < raw.len() implies {
            let c = #[trigger] raw[k];
            c != '&' && c != '<' && c != '>' && c != '"' && c != '\\' && c != '{'
        } by {
            if k < d.len() {
                if k < b.len() {
                    assert(raw[k] == b[k]);
                } else {
                    assert(raw[k] == '/');
                }
            } else if k < d.len() + 6 {
                assert(raw[k] == "posts/"@[k - d.len()]);
            } else if k < d.len() + 6 + p.id@.len() {
                assert(raw[k] == p.id@[k - d.len() - 6]);
                assert(crate::post::is_id_char(p.id@[k - d.len() - 6]));
            } else {
                assert(raw[k] == "/index.html"@[k - d.len() - 6 - p.id@.len()]);
            }
        }
    }
    lemma_escape_plain(raw);
    let href = escape(site_href_text(site.base_url@, r));
    assert(href == raw);
    assert(d + "posts/"@ + p.id@ + "/index.html"@ =~= raw);
    lemma_replace_whole("{{typlog_post_href}}"@, href);
    let s1 = replace("{{typlog_post_href}}"@, "{{typlog_post_href}}"@, href);
    lemma_missing_first_char(s1, "{{typlog_post_id}}"@);
    crate::text::lemma_replace_absent(s1, "{{typlog_post_id}}"@, escape(p.id@));
    lemma_missing_first_char(s1, "{{typlog_post_title}}"@);
    crate::text::lemma_replace_absent(s1, "{{typlog_post_title}}"@, escape(p.title@));
    lemma_missing_first_char(s1, "{{typlog_post_date}}"@);
    crate::text::lemma_replace_absent(s1, "{{typlog_post_date}}"@, list_date_text(p.date));
}


/// The app-bar home link of a themed post page is the site's `index.html`
/// under its base URL: the shell starts with the background layer and the
/// app bar, whose brand link is the trimmed base, a `/` unless it ends with
/// one, then `index.html`.
pub proof fn lemma_post_shell_home_link(site: SiteConfig, meta: PostMeta, inner: Seq<char>)
    requires
        plain_text(trim(site.base_url@)),
    ensures
        starts_with(
            post_shell_text(site, meta, inner),
            "<div id=\"typlog-bg\" data-turbo-permanent aria-hidden=\"true\"></div>\n<header class=\"material-appbar\"><div class=\"material-appbar-inner\"><a class=\"material-appbar-brand\" href=\""@
                + (if trim(site.base_url@).len() > 0 && trim(site.base_url@).last() == '/' {
                trim(site.base_url@)
            } else {
                trim(site.base_url@) + seq!['/']
            }) + "index.html"@ + "\">"@,
        ),
{
    reveal_strlit("index.html");
    let b = trim(site.base_url@);
    let d = if b.len() > 0 && b.last() == '/' {
        b
    } else {
        b + seq!['/']
    };
    let r = "index.html"@;
    assert(r[0] == 'i');
    assert(r.last() == 'l');
    lemma_site_href_relative(site.base_url@, r);
    let raw = d + r;
    assert(plain_text(raw)) by {
        assert forall|k: int| 0 <= k < raw.len() implies {
            let c = #[trigger] raw[k];
            c != '&' && c != '<' && c != '>' && c != '"' && c != '\\' && c != '{'
        } by {
            if k < d.len() {
                if k < b.len() {
                    assert(raw[k] == b[k]);
                } else {
                    assert(raw[k] == '/');
                }
            } else {
                assert(raw[k] == r[k - d.len()]);
            }
        }
    }
    lemma_escape_plain(raw);
    lemma_shell_starts_with_home(site, meta, inner);
    assert(escape(site_href_text(site.base_url@, "index.html"@)) == d + "index.html"@);
    let pre = "<div id=\"typlog-bg\" data-turbo-permanent aria-hidden=\"true\"></div>\n<header class=\"material-appbar\"><div class=\"material-appbar-inner\"><a class=\"material-appbar-brand\" href=\""@;
    assert(pre + (d + "index.html"@) + "\">"@ =~= pre + d + "index.html"@ + "\">"@);
}

/// The post shell opens with the background layer and the app bar's brand
/// link to the escaped home URL.
proof fn lemma_shell_starts_with_home(site: SiteConfig, meta: PostMeta, inner: Seq<char>)
    ensures
        starts_with(
            post_shell_text(site, meta, inner),
            "<div id=\"typlog-bg\" data-turbo-permanent aria-hidden=\"true\"></div>\n<header class=\"material-appbar\"><div class=\"material-appbar-inner\"><a class=\"material-appbar-brand\" href=\""@
                + escape(site_href_text(site.base_url@, "index.html"@)) + "\">"@,
        ),
{
    let head = "<div id=\"typlog-bg\" data-turbo-permanent aria-hidden=\"true\"></div>\n<header class=\"material-appbar\"><div class=\"material-appbar-inner\"><a class=\"material-appbar-brand\" href=\""@
        + escape(site_href_text(site.base_url@, "index.html"@)) + "\">"@;
    let shell = post_shell_text(site, meta, inner);
    let rest = escape(site.title@)
        + "</a></div></header>\n<main id=\"typlog-main\" class=\"material-post-main\">\n<section class=\"material-article-hero\">\n<h1 class=\"material-article-title\">"@
        + escape(meta.title@) + "</h1>\n"@ + date_line_text(meta.date)
        + "</section>\n<div class=\"material-typst\">\n"@ + inner + "\n</div>\n</main>"@;
    assert(shell =~= head + rest);
    assert(shell.subrange(0, head.len() as int) =~= head);
}

/// A relative background image is addressed under the site's base URL: the
/// style block starts with its header and `url("...")` of the trimmed base,
/// a `/` unless it ends with one, then the trimmed image path.
pub proof fn lemma_background_image_url(
    base_url: Seq<char>,
    image: Seq<char>,
    opacity: Seq<char>,
    blur: nat,
)
    requires
        plain_text(trim(base_url)),
        plain_text(trim(image)),
        trim(image).len() > 0,
        trim(image)[0] != '/',
        !starts_with(trim(image), "http://"@),
        !starts_with(trim(image), "https://"@),
    ensures
        starts_with(
            background_style_text(base_url, image, opacity, blur),
            "<style id=\"typlog-site-bg\">\nhtml { background: transparent; }\nbody.typlog-material { background: transparent !important; }\n#typlog-bg {\n  background-image: "@
                + "url(\""@ + (if trim(base_url).len() > 0 && trim(base_url).last() == '/' {
                trim(base_url)
            } else {
                trim(base_url) + seq!['/']
            }) + trim(image) + "\")"@,
        ),
{
    reveal_strlit("\\");
    reveal_strlit("\"");
    let b = trim(base_url);
    let d = if b.len() > 0 && b.last() == '/' {
        b
    } else {
        b + seq!['/']
    };
    let s = trim(image);
    crate::text::lemma_trim_trimmed(image);
    crate::text::lemma_trim_clean(image);
    assert(asset_url_text(base_url, s) == site_href_text(base_url, s));
    lemma_site_href_relative(base_url, s);
    let url = d + s;
    assert(plain_text(url)) by {
        assert forall|k: int| 0 <= k < url.len() implies {
            let c = #[trigger] url[k];
            c != '&' && c != '<' && c != '>' && c != '"' && c != '\\' && c != '{'
        } by {
            if k < d.len() {
                if k < b.len() {
                    assert(url[k] == b[k]);
                } else {
                    assert(url[k] == '/');
                }
            } else {
                assert(url[k] == s[k - d.len()]);
            }
        }
    }
    lemma_missing_first_char(url, "\\"@);
    crate::text::lemma_replace_absent(url, "\\"@, "\\\\"@);
    lemma_missing_first_char(url, "\""@);
    crate::text::lemma_replace_absent(url, "\""@, "\\\""@);
    assert(css_url_text(url) == "url(\""@ + url + "\")"@);
    let pre = "<style id=\"typlog-site-bg\">\nhtml { background: transparent; }\nbody.typlog-material { background: transparent !important; }\n#typlog-bg {\n  background-image: "@;
    let head = pre + "url(\""@ + d + s + "\")"@;
    let whole = background_style_text(base_url, image, opacity, blur);
    let rest = ";\n  background-size: cover;\n  background-position: center;\n  opacity: "@
        + clamped_opacity_text(opacity) + ";\n"@ + filter_block_text(blur) + "\n}\n"@
        + reduced_motion_text(blur) + "</style>\n"@;
    assert(whole =~= head + rest);
    assert(whole.subrange(0, head.len() as int) =~= head);
}

} // verus!
