//! Post ids and the files of a new post.
use vstd::prelude::*;
use crate::scaffold::{render_template, template_text};
use crate::text::{str_chars, string_of, trim, trim_str};

verus! {

/// Characters allowed in a post id: lower-case ASCII letters, digits, `-`.
pub open spec fn is_id_char(c: char) -> bool {
    ('a' <= c && c <= 'z') || ('0' <= c && c <= '9') || c == '-'
}

/// Every character of `s` is allowed in a post id.
pub open spec fn all_id_chars(s: Seq<char>) -> bool {
    forall|i: int| 0 <= i < s.len() ==> is_id_char(#[trigger] s[i])
}

/// A valid post id: non-empty kebab-case.
pub open spec fn valid_id(s: Seq<char>) -> bool {
    s.len() > 0 && all_id_chars(s)
}

/// A post id is accepted exactly when it is non-empty and made only of the
/// lower-case ASCII letters `a` to `z` (code points 97 to 122), the digits
/// `0` to `9` (48 to 57) and `-` (45).
pub proof fn lemma_valid_id_exactly(s: Seq<char>)
    ensures
        valid_id(s) <==> (s.len() > 0 && forall|k: int|
            0 <= k < s.len() ==> {
                let c = (#[trigger] s[k]) as int;
                (97 <= c && c <= 122) || (48 <= c && c <= 57) || c == 45
            }),
{
    assert forall|k: int| 0 <= k < s.len() implies (is_id_char(#[trigger] s[k]) <==> {
        let c = s[k] as int;
        (97 <= c && c <= 122) || (48 <= c && c <= 57) || c == 45
    }) by {}
}

/// Why a post id is refused.
pub enum PostIdError {
    /// The id is empty.
    Empty,
    /// The id holds a character other than `a`-`z`, `0`-`9` and `-`.
    InvalidChar,
}

impl PostIdError {
    /// A message for the user.
    pub fn message(&self) -> (r: String)
        ensures
            r@ == match self {
                PostIdError::Empty => "文章 id 不能为空"@,
                PostIdError::InvalidChar => "文章 id 仅允许小写字母、数字、短横线"@,
            },
    {
        match self {
            PostIdError::Empty => String::from_str("文章 id 不能为空"),
            PostIdError::InvalidChar => String::from_str("文章 id 仅允许小写字母、数字、短横线"),
        }
    }
}

/// Why a slug is refused.
pub enum SlugError {
    /// The slug is empty.
    Empty,
    /// The slug holds a character other than `a`-`z`, `0`-`9` and `-`.
    InvalidChar,
}

impl SlugError {
    /// A message for the user.
    pub fn message(&self) -> (r: String)
        ensures
            r@ == match self {
                SlugError::Empty => "slug 不能为空"@,
                SlugError::InvalidChar => "slug 仅允许小写字母、数字、短横线"@,
            },
    {
        match self {
            SlugError::Empty => String::from_str("slug 不能为空"),
            SlugError::InvalidChar => String::from_str("slug 仅允许小写字母、数字、短横线"),
        }
    }
}

/// Whether every character is allowed in an id.
fn all_id_chars_exec(s: &str) -> (b: bool)
    ensures
        b == all_id_chars(s@),
{
    let v = str_chars(s);
    let mut i: usize = 0;
    while i < v.len()
        invariant
            i <= v@.len(),
            v@ == s@,
            forall|k: int| 0 <= k < i ==> is_id_char(#[trigger] v@[k]),
        decreases v@.len() - i,
    {
        let c = v[i];
        if !(('a' <= c && c <= 'z') || ('0' <= c && c <= '9') || c == '-') {
            assert(!is_id_char(v@[i as int]));
            return false;
        }
        i = i + 1;
    }
    true
}

/// Checks a post id (used as `post/<id>/` and as a URL segment).
pub fn validate_post_id(id: &str) -> (r: Result<(), PostIdError>)
    ensures
        r is Ok <==> valid_id(id@),
        r matches Err(PostIdError::Empty) <==> id@.len() == 0,
        r matches Err(PostIdError::InvalidChar) <==> (id@.len() > 0 && !all_id_chars(id@)),
{
    if id.is_empty() {
        return Err(PostIdError::Empty);
    }
    if !all_id_chars_exec(id) {
        return Err(PostIdError::InvalidChar);
    }
    Ok(())
}

/// Checks a post slug (same rule as a post id).
pub fn validate_slug(slug: &str) -> (r: Result<(), SlugError>)
    ensures
        r is Ok <==> valid_id(slug@),
        r matches Err(SlugError::Empty) <==> slug@.len() == 0,
        r matches Err(SlugError::InvalidChar) <==> (slug@.len() > 0 && !all_id_chars(slug@)),
{
    if slug.is_empty() {
        return Err(SlugError::Empty);
    }
    if !all_id_chars_exec(slug) {
        return Err(SlugError::InvalidChar);
    }
    Ok(())
}

/// The two files of a new post `id` created on `today`: `meta.toml` (the
/// trimmed meta template with `{slug}` the id, `{date}` today and `{title}`
/// the id) and `index.typ` (the trimmed post template).
pub fn new_post_files(id: &str, today: &str, meta_template: &str, post_template: &str) -> (r:
    Result<(String, String), PostIdError>)
    ensures
        r is Ok <==> valid_id(id@),
        r matches Err(PostIdError::Empty) <==> id@.len() == 0,
        r matches Err(PostIdError::InvalidChar) <==> (id@.len() > 0 && !all_id_chars(id@)),
        r matches Ok((meta, post)) ==> meta@ == template_text(trim(meta_template@), id@, today@, id@)
            && post@ == trim(post_template@),
{
    match validate_post_id(id) {
        Err(e) => Err(e),
        Ok(()) => {
            let meta_tpl = string_of(&trim_str(meta_template));
            let meta = render_template(meta_tpl.as_str(), id, today, id);
            let post = string_of(&trim_str(post_template));
            Ok((meta, post))
        },
    }
}

} // verus!
