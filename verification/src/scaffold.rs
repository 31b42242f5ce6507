//! Templates of a new post (`templates/meta.toml`, `templates/post.typ`).
use vstd::prelude::*;
use crate::text::{
    contains, lemma_replace_absent, replace, replace_str, str_chars, string_of, trim, trim_str,
};

verus! {

broadcast use vstd::string::group_string_axioms;

/// `template` with `{slug}`, `{date}` and `{title}` replaced, in that order.
pub open spec fn template_text(
    template: Seq<char>,
    slug: Seq<char>,
    date: Seq<char>,
    title: Seq<char>,
) -> Seq<char> {
    replace(replace(replace(template, "{slug}"@, slug), "{date}"@, date), "{title}"@, title)
}

/// Fills the placeholders `{slug}`, `{date}` and `{title}` of a template.
pub fn render_template(template: &str, slug: &str, date: &str, title: &str) -> (r: String)
    ensures
        r@ == template_text(template@, slug@, date@, title@),
{
    proof {
        reveal_strlit("{slug}");
        reveal_strlit("{date}");
        reveal_strlit("{title}");
    }
    let t = str_chars(template);
    let a = replace_str(&t, "{slug}", &str_chars(slug));
    let b = replace_str(&a, "{date}", &str_chars(date));
    let c = replace_str(&b, "{title}", &str_chars(title));
    string_of(&c)
}

/// What the file system holds at a template's path.
pub enum TemplateSource {
    /// Nothing at the path.
    Missing,
    /// Something that is not a regular file (e.g. a directory).
    NotAFile,
    /// A readable file with this content.
    Contents(String),
}

/// The template to use: the file's content, unless the path is missing,
/// not a regular file, or holds only white space, in which case the default.
pub fn template_or_default(source: &TemplateSource, default_template: &str) -> (r: String)
    ensures
        match source {
            TemplateSource::Contents(s) => if trim(s@).len() == 0 {
                r@ == default_template@
            } else {
                r@ == s@
            },
            _ => r@ == default_template@,
        },
{
    match source {
        TemplateSource::Contents(s) => {
            let t = trim_str(s.as_str());
            if t.len() == 0 {
                String::from_str(default_template)
            } else {
                string_of(&str_chars(s.as_str()))
            }
        },
        _ => String::from_str(default_template),
    }
}

/// Whether the built-in template should be written at a path: when nothing
/// is there, or a file holding only white space; never over a non-file.
pub fn should_seed(source: &TemplateSource) -> (b: bool)
    ensures
        match source {
            TemplateSource::Missing => b,
            TemplateSource::NotAFile => !b,
            TemplateSource::Contents(s) => b == (trim(s@).len() == 0),
        },
{
    match source {
        TemplateSource::Missing => true,
        TemplateSource::NotAFile => false,
        TemplateSource::Contents(s) => trim_str(s.as_str()).len() == 0,
    }
}

/// A template without placeholders is used as it is.
pub proof fn lemma_template_without_placeholders(
    template: Seq<char>,
    slug: Seq<char>,
    date: Seq<char>,
    title: Seq<char>,
)
    requires
        !contains(template, "{slug}"@),
        !contains(template, "{date}"@),
        !contains(template, "{title}"@),
    ensures
        template_text(template, slug, date, title) == template,
{
    lemma_replace_absent(template, "{slug}"@, slug);
    lemma_replace_absent(template, "{date}"@, date);
    lemma_replace_absent(template, "{title}"@, title);
}

} // verus!
