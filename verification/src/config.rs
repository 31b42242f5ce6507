//! Site configuration (`config.toml`).
use vstd::prelude::*;
use crate::text::{
    find, find_vec, lemma_find_in_bounds, lemma_line_end, line_at, line_at_exec, line_end,
    line_end_exec, starts_with, starts_with_str, str_chars, string_of_range, sub_vec, trim,
    trim_vec,
};

verus! {

/// Site-wide settings read from `config.toml`.
///
/// The background opacity is kept as the text that `{}` writes for the
/// configured number, which the background style prints after clamping; the
/// glass panel opacity, which is computed with, is kept in ten-thousandths
/// (`10000` is fully opaque).
pub struct SiteConfig {
    /// Site title, shown in the app bar and the index page.
    pub title: String,
    /// Prefix of every site-root URL (`/` for the domain root).
    pub base_url: String,
    /// `lang` attribute of the index page.
    pub language: String,
    /// Optional line shown at the top of the index page.
    pub signature: String,
    /// Background image (site-root path or absolute `http(s)` URL); empty for none.
    pub background_image: String,
    /// Background image opacity, as `{}` writes the number (`0.7`, `1`, ...).
    pub background_opacity: String,
    /// Background blur radius in pixels (0 for none).
    pub background_blur_px: u32,
    /// Opacity of the glass content panels, in ten-thousandths.
    pub glass_panel_opacity: u32,
}

impl Default for SiteConfig {
    fn default() -> (r: SiteConfig)
        ensures
            r.title@ == "Typlog"@,
            r.base_url@ == "/"@,
            r.language@ == "zh-CN"@,
            r.signature@ == Seq::<char>::empty(),
            r.background_image@ == Seq::<char>::empty(),
            r.background_opacity@ == "1"@,
            r.background_blur_px == 0,
            r.glass_panel_opacity == 8800,
    {
        SiteConfig {
            title: String::from_str("Typlog"),
            base_url: String::from_str("/"),
            language: String::from_str("zh-CN"),
            signature: String::new(),
            background_image: String::new(),
            background_opacity: String::from_str("1"),
            background_blur_px: 0,
            glass_panel_opacity: 8800,
        }
    }
}

/// `line` up to its first `#` (a TOML comment), or the whole line.
pub open spec fn before_hash(line: Seq<char>) -> Seq<char> {
    match find(line, seq!['#']) {
        Some(k) => line.subrange(0, k),
        None => line,
    }
}

/// The site title given on one `config.toml` line: the line (comment
/// removed, trimmed) starts with `title`, has a `=`, and after it (trimmed)
/// a double-quoted value.
pub open spec fn title_in_line(line: Seq<char>) -> Option<Seq<char>> {
    let l = trim(before_hash(line));
    if !starts_with(l, "title"@) {
        None
    } else {
        match find(l, seq!['=']) {
            None => None,
            Some(eq) => {
                let val = trim(l.subrange(eq + 1, l.len() as int));
                if val.len() >= 2 && val[0] == '"' && val.last() == '"' {
                    Some(val.subrange(1, val.len() - 1))
                } else {
                    None
                }
            },
        }
    }
}

/// The first title line from the line starting at `i` on.
pub open spec fn title_from(s: Seq<char>, i: int) -> Option<Seq<char>>
    decreases s.len() + 1 - i
    via title_from_decreases
{
    if i < 0 || i >= s.len() {
        None
    } else {
        match title_in_line(line_at(s, i)) {
            Some(t) => Some(t),
            None => title_from(s, line_end(s, i) + 1),
        }
    }
}

#[via_fn]
proof fn title_from_decreases(s: Seq<char>, i: int) {
    if 0 <= i < s.len() {
        lemma_line_end(s, i);
    }
}

/// The site title of a `config.toml` text: the first `title = "..."` line's
/// value, or `Typlog`.
pub open spec fn config_site_title(content: Seq<char>) -> Seq<char> {
    match title_from(content, 0) {
        Some(t) => t,
        None => "Typlog"@,
    }
}

/// `title_in_line` computed.
fn title_in_line_exec(line: &Vec<char>) -> (r: Option<Vec<char>>)
    ensures
        match title_in_line(line@) {
            Some(t) => (r matches Some(x) && x@ == t),
            None => r is None,
        },
{
    let mut hash: Vec<char> = Vec::new();
    hash.push('#');
    assert(hash@ == seq!['#']);
    let cut = match find_vec(line, &hash) {
        Some(k) => {
            proof {
                lemma_find_in_bounds(line@, hash@, 0);
            }
            sub_vec(line, 0, k)
        },
        None => sub_vec(line, 0, line.len()),
    };
    assert(cut@ == before_hash(line@));
    let l = trim_vec(&cut);
    if !starts_with_str(&l, "title") {
        return None;
    }
    let mut eqs: Vec<char> = Vec::new();
    eqs.push('=');
    assert(eqs@ == seq!['=']);
    match find_vec(&l, &eqs) {
        None => None,
        Some(eq) => {
            proof {
                lemma_find_in_bounds(l@, eqs@, 0);
            }
            let n = l.len();
            let after = sub_vec(&l, eq + 1, n);
            let val = trim_vec(&after);
            if val.len() >= 2 && val[0] == '"' && val[val.len() - 1] == '"' {
                Some(sub_vec(&val, 1, val.len() - 1))
            } else {
                None
            }
        },
    }
}

/// The site title written in a `config.toml` text (`Typlog` when none is).
pub fn site_title_from_config(content: &str) -> (r: String)
    ensures
        r@ == config_site_title(content@),
{
    let v = str_chars(content);
    let mut i: usize = 0;
    while i < v.len()
        invariant
            i <= v@.len(),
            v@ == content@,
            title_from(v@, 0) == title_from(v@, i as int),
        decreases v@.len() - i,
    {
        let e = line_end_exec(&v, i);
        let line = line_at_exec(&v, i, e);
        match title_in_line_exec(&line) {
            Some(t) => {
                return string_of_range(&t, 0, t.len());
            },
            None => {},
        }
        assert(title_from(v@, i as int) == title_from(v@, e + 1));
        if e >= v.len() {
            return String::from_str("Typlog");
        }
        i = e + 1;
    }
    String::from_str("Typlog")
}

} // verus!
