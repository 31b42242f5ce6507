//! Decisions of the local preview server: which file a request names and
//! which `Content-Type` a file is served with.
use vstd::prelude::*;
use crate::text::{
    find, find_vec, lemma_find_in_bounds, lemma_rfind_in_bounds, rfind, rfind_vec, str_chars,
    string_of, sub_vec, trim_start_char, trim_start_char_vec, vec_is,
};

verus! {

broadcast use vstd::string::group_string_axioms;

/// The path part of a request URL (before any `?`), without leading `/`.
pub open spec fn request_rel_text(url: Seq<char>) -> Seq<char> {
    let path = match find(url, seq!['?']) {
        Some(k) => url.subrange(0, k),
        None => url,
    };
    trim_start_char(path, '/')
}

/// The file path, relative to `public/`, that a request URL asks for
/// (empty for the site root).
pub fn request_rel_path(url: &str) -> (r: String)
    ensures
        r@ == request_rel_text(url@),
{
    let v = str_chars(url);
    let mut q: Vec<char> = Vec::new();
    q.push('?');
    assert(q@ == seq!['?']);
    let path = match find_vec(&v, &q) {
        Some(k) => {
            proof {
                lemma_find_in_bounds(v@, q@, 0);
            }
            sub_vec(&v, 0, k)
        },
        None => sub_vec(&v, 0, v.len()),
    };
    assert(v@.subrange(0, v@.len() as int) == v@);
    string_of(&trim_start_char_vec(&path, '/'))
}

/// The last component of a `/`-separated path, as `Path::file_name` gives
/// it: empty and `.` components are skipped; none for `..`, the root or an
/// empty path.
pub open spec fn file_name_text(p: Seq<char>) -> Option<Seq<char>>
    decreases p.len(),
{
    if p.len() == 0 {
        None
    } else {
        match rfind(p, seq!['/']) {
            None => if p == seq!['.'] || p == seq!['.', '.'] {
                None
            } else {
                Some(p)
            },
            Some(k) => {
                let tail = p.subrange(k + 1, p.len() as int);
                if tail.len() == 0 || tail == seq!['.'] {
                    if 0 <= k < p.len() {
                        file_name_text(p.subrange(0, k))
                    } else {
                        None
                    }
                } else if tail == seq!['.', '.'] {
                    None
                } else {
                    Some(tail)
                }
            },
        }
    }
}

/// `Path::extension`: what follows the last `.` of the file name, unless the
/// name has no `.` or its only `.` comes first.
pub open spec fn extension_text(p: Seq<char>) -> Option<Seq<char>> {
    match file_name_text(p) {
        None => None,
        Some(n) => match rfind(n, seq!['.']) {
            Some(i) => if i > 0 {
                Some(n.subrange(i + 1, n.len() as int))
            } else {
                None
            },
            None => None,
        },
    }
}

/// `file_name_text` computed.
fn file_name_vec(p: &Vec<char>) -> (r: Option<Vec<char>>)
    ensures
        match file_name_text(p@) {
            Some(n) => (r matches Some(x) && x@ == n),
            None => r is None,
        },
    decreases p@.len(),
{
    if p.len() == 0 {
        return None;
    }
    let mut slash: Vec<char> = Vec::new();
    slash.push('/');
    assert(slash@ == seq!['/']);
    proof {
        lemma_rfind_in_bounds(p@, slash@);
    }
    match rfind_vec(p, &slash) {
        None => {
            if (p.len() == 1 && p[0] == '.') || (p.len() == 2 && p[0] == '.' && p[1] == '.') {
                assert(p@ == seq!['.'] || p@ == seq!['.', '.']);
                None
            } else {
                assert(p@ != seq!['.'] && p@ != seq!['.', '.']) by {
                    if p@ == seq!['.'] {
                        assert(p@[0] == '.');
                    }
                    if p@ == seq!['.', '.'] {
                        assert(p@[0] == '.' && p@[1] == '.');
                    }
                }
                Some(sub_vec(p, 0, p.len()))
            }
        },
        Some(k) => {
            let tail = sub_vec(p, k + 1, p.len());
            let is_dot = tail.len() == 1 && tail[0] == '.';
            let is_dot_dot = tail.len() == 2 && tail[0] == '.' && tail[1] == '.';
            proof {
                if is_dot {
                    assert(tail@ =~= seq!['.']);
                } else if tail@ == seq!['.'] {
                    assert(tail@[0] == '.');
                }
                if is_dot_dot {
                    assert(tail@ =~= seq!['.', '.']);
                } else if tail@ == seq!['.', '.'] {
                    assert(tail@[0] == '.' && tail@[1] == '.');
                }
            }
            if tail.len() == 0 || is_dot {
                let head = sub_vec(p, 0, k);
                file_name_vec(&head)
            } else if is_dot_dot {
                None
            } else {
                Some(tail)
            }
        },
    }
}

/// `Content-Type` for a file extension.
pub open spec fn content_type_text(ext: Option<Seq<char>>) -> Seq<char> {
    match ext {
        Some(e) => if e == "html"@ {
            "text/html; charset=utf-8"@
        } else if e == "css"@ {
            "text/css; charset=utf-8"@
        } else if e == "js"@ {
            "application/javascript; charset=utf-8"@
        } else if e == "json"@ {
            "application/json; charset=utf-8"@
        } else if e == "svg"@ {
            "image/svg+xml"@
        } else if e == "png"@ {
            "image/png"@
        } else if e == "jpg"@ || e == "jpeg"@ {
            "image/jpeg"@
        } else if e == "webp"@ {
            "image/webp"@
        } else {
            "application/octet-stream"@
        },
        None => "application/octet-stream"@,
    }
}

/// The `Content-Type` a file is served with, chosen by its extension.
pub fn guess_content_type(path: &str) -> (r: &'static str)
    ensures
        r@ == content_type_text(extension_text(path@)),
{
    let p = str_chars(path);
    let name = match file_name_vec(&p) {
        Some(n) => n,
        None => return "application/octet-stream",
    };
    let mut dot: Vec<char> = Vec::new();
    dot.push('.');
    assert(dot@ == seq!['.']);
    proof {
        lemma_rfind_in_bounds(name@, dot@);
    }
    let ext = match rfind_vec(&name, &dot) {
        Some(i) => {
            if i == 0 {
                return "application/octet-stream";
            }
            let n = name.len();
            sub_vec(&name, i + 1, n)
        },
        None => return "application/octet-stream",
    };
    if vec_is(&ext, "html") {
        "text/html; charset=utf-8"
    } else if vec_is(&ext, "css") {
        "text/css; charset=utf-8"
    } else if vec_is(&ext, "js") {
        "application/javascript; charset=utf-8"
    } else if vec_is(&ext, "json") {
        "application/json; charset=utf-8"
    } else if vec_is(&ext, "svg") {
        "image/svg+xml"
    } else if vec_is(&ext, "png") {
        "image/png"
    } else if vec_is(&ext, "jpg") || vec_is(&ext, "jpeg") {
        "image/jpeg"
    } else if vec_is(&ext, "webp") {
        "image/webp"
    } else {
        "application/octet-stream"
    }
}

/// `Path::join` for a relative `name`: `base`, then a `/` unless `base` is
/// empty or already ends with one, then `name`.
pub open spec fn join_text(base: Seq<char>, name: Seq<char>) -> Seq<char> {
    if base.len() == 0 || base.last() == '/' {
        base + name
    } else {
        base + seq!['/'] + name
    }
}

/// Joins a relative path `name` onto `base` (`Path::join`).
pub fn join_path(base: &str, name: &str) -> (r: String)
    ensures
        r@ == join_text(base@, name@),
{
    let b = str_chars(base);
    let mut out = string_of(&b);
    if b.len() == 0 || b[b.len() - 1] == '/' {
    } else {
        crate::text::push_char(&mut out, '/');
        assert(out@ == b@ + seq!['/']);
    }
    out.append(name);
    out
}

/// The first file a request is looked up at: `public/index.html` for the
/// site root, `public/<rel>` otherwise.
pub open spec fn candidate_text(rel: Seq<char>) -> Seq<char> {
    if rel.len() == 0 {
        join_text("public"@, "index.html"@)
    } else {
        join_text("public"@, rel)
    }
}

/// `candidate_text` computed.
pub fn request_candidate(rel: &str) -> (r: String)
    ensures
        r@ == candidate_text(rel@),
{
    if rel.is_empty() {
        join_path("public", "index.html")
    } else {
        join_path("public", rel)
    }
}

/// What the file system says about the paths a request may be served from:
/// the candidate (`candidate_text`), its `index.html`, and `public/posts`.
pub struct PathFacts {
    /// The candidate is a directory.
    pub candidate_is_dir: bool,
    /// The candidate exists.
    pub candidate_exists: bool,
    /// The candidate's `index.html` is a directory.
    pub index_is_dir: bool,
    /// The candidate's `index.html` exists.
    pub index_exists: bool,
    /// `public/posts` is a directory.
    pub posts_is_dir: bool,
}

/// The file that answers a request: a directory gives its `index.html`; a
/// site root without `public/index.html` falls back to `public/posts`
/// (again its `index.html` when it is a directory).
pub open spec fn served_text(rel: Seq<char>, f: PathFacts) -> Seq<char> {
    let c = candidate_text(rel);
    let p2 = if f.candidate_is_dir {
        join_text(c, "index.html"@)
    } else {
        c
    };
    let exists2 = if f.candidate_is_dir {
        f.index_exists
    } else {
        f.candidate_exists
    };
    let dir2 = f.candidate_is_dir && f.index_is_dir;
    let fallback = !exists2 && rel.len() == 0;
    let p3 = if fallback {
        join_text("public"@, "posts"@)
    } else {
        p2
    };
    let dir3 = if fallback {
        f.posts_is_dir
    } else {
        dir2
    };
    if dir3 {
        join_text(p3, "index.html"@)
    } else {
        p3
    }
}

/// `s` has `..` as a whole `/`-separated component starting at `i`.
pub open spec fn parent_component_at(s: Seq<char>, i: int) -> bool {
    &&& 0 <= i
    &&& i + 2 <= s.len()
    &&& s[i] == '.'
    &&& s[i + 1] == '.'
    &&& (i == 0 || s[i - 1] == '/')
    &&& (i + 2 == s.len() || s[i + 2] == '/')
}

/// `s` has a `..` component: a path that climbs out of where it starts.
pub open spec fn has_parent_component(s: Seq<char>) -> bool {
    exists|i: int| #[trigger] parent_component_at(s, i)
}

/// Whether a request path (from `request_rel_path`) may be served: it has no
/// `..` component, so it stays inside `public/`.
pub fn request_allowed(rel: &str) -> (b: bool)
    ensures
        b == !has_parent_component(rel@),
{
    let v = str_chars(rel);
    let n = v.len();
    let mut i: usize = 0;
    while i < n
        invariant
            n == v@.len(),
            v@ == rel@,
            i <= n,
            forall|k: int| 0 <= k < i ==> !#[trigger] parent_component_at(rel@, k),
        decreases n - i,
    {
        if i + 1 < n && v[i] == '.' && v[i + 1] == '.' && (i == 0 || v[i - 1] == '/') && (i + 2
            == n || v[i + 2] == '/') {
            assert(parent_component_at(rel@, i as int));
            return false;
        }
        i = i + 1;
    }
    true
}

/// The path of the file that answers an allowed request.
fn served_path(rel: &str, facts: &PathFacts) -> (r: String)
    ensures
        r@ == served_text(rel@, *facts),
{
    let c = request_candidate(rel);
    let p2 = if facts.candidate_is_dir {
        join_path(c.as_str(), "index.html")
    } else {
        c
    };
    let exists2 = if facts.candidate_is_dir {
        facts.index_exists
    } else {
        facts.candidate_exists
    };
    let dir2 = facts.candidate_is_dir && facts.index_is_dir;
    let fallback = !exists2 && rel.is_empty();
    let p3 = if fallback {
        join_path("public", "posts")
    } else {
        p2
    };
    let dir3 = if fallback {
        facts.posts_is_dir
    } else {
        dir2
    };
    if dir3 {
        join_path(p3.as_str(), "index.html")
    } else {
        p3
    }
}

/// The path of the file that answers a request for `rel` (from
/// `request_rel_path`), given the facts about its candidate paths; `None`
/// for a request with a `..` component, which would leave `public/`.
pub fn served_file(rel: &str, facts: &PathFacts) -> (r: Option<String>)
    ensures
        r is None <==> has_parent_component(rel@),
        r matches Some(p) ==> p@ == served_text(rel@, *facts),
{
    if request_allowed(rel) {
        Some(served_path(rel, facts))
    } else {
        None
    }
}

/// A path inside `public/`: `public/` followed by a path without `..`.
pub open spec fn under_public(x: Seq<char>) -> bool {
    &&& x.len() >= 7
    &&& x.subrange(0, 7) == "public/"@
    &&& !has_parent_component(x.subrange(7, x.len() as int))
}

/// Putting `public/` before a path without `..` gives a path inside `public/`.
proof fn lemma_public_prefix(r: Seq<char>)
    requires
        !has_parent_component(r),
    ensures
        under_public("public/"@ + r),
        !has_parent_component("public/"@ + r),
{
    reveal_strlit("public/");
    let x = "public/"@ + r;
    assert(x.subrange(0, 7) =~= "public/"@);
    assert(x.subrange(7, x.len() as int) =~= r);
    assert forall|i: int| !#[trigger] parent_component_at(x, i) by {
        if parent_component_at(x, i) {
            if i < 7 {
                assert(x[i] == "public/"@[i]);
            } else {
                assert(x[i] == r[i - 7]);
                assert(x[i + 1] == r[i - 6]);
                if i > 7 {
                    assert(x[i - 1] == r[i - 8]);
                }
                if i + 2 < x.len() {
                    assert(x[i + 2] == r[i - 5]);
                }
                assert(parent_component_at(r, i - 7));
            }
        }
    }
}

/// Appending `index.html` or `/index.html` adds no `..` component.
proof fn lemma_append_index(r: Seq<char>, t: Seq<char>)
    requires
        !has_parent_component(r),
        t == "index.html"@ || t == "/index.html"@,
    ensures
        !has_parent_component(r + t),
{
    reveal_strlit("index.html");
    reveal_strlit("/index.html");
    let s = r + t;
    let l = r.len() as int;
    assert forall|i: int| !#[trigger] parent_component_at(s, i) by {
        if parent_component_at(s, i) {
            if i >= l {
                assert(s[i] == t[i - l]);
                assert(s[i + 1] == t[i - l + 1]);
            } else if i + 1 == l {
                assert(s[i + 1] == t[0]);
            } else {
                assert(s[i] == r[i]);
                assert(s[i + 1] == r[i + 1]);
                if i > 0 {
                    assert(s[i - 1] == r[i - 1]);
                }
                if i + 2 < l {
                    assert(s[i + 2] == r[i + 2]);
                } else {
                    assert(s[i + 2] == t[0]);
                }
                assert(parent_component_at(r, i));
            }
        }
    }
}

/// Joining `index.html` onto a path inside `public/` stays inside it.
proof fn lemma_join_index_under_public(x: Seq<char>)
    requires
        under_public(x),
    ensures
        under_public(join_text(x, "index.html"@)),
{
    reveal_strlit("public/");
    let r = x.subrange(7, x.len() as int);
    assert(x =~= "public/"@ + r);
    let t = if x.last() == '/' {
        "index.html"@
    } else {
        "/index.html"@
    };
    reveal_strlit("index.html");
    reveal_strlit("/index.html");
    if x.last() == '/' {
        assert(join_text(x, "index.html"@) == x + t);
    } else {
        assert(seq!['/'] + "index.html"@ =~= t);
        assert(join_text(x, "index.html"@) =~= x + t);
    }
    assert(x + t =~= "public/"@ + (r + t));
    lemma_append_index(r, t);
    lemma_public_prefix(r + t);
}

/// A path inside `public/` starts with `public/` and has no `..` component.
proof fn lemma_under_public_facts(x: Seq<char>)
    requires
        under_public(x),
    ensures
        crate::text::starts_with(x, "public/"@),
        !has_parent_component(x),
{
    let r = x.subrange(7, x.len() as int);
    assert(x =~= "public/"@ + r);
    lemma_public_prefix(r);
}

/// Every file served for a request without a `..` component lies inside
/// `public/`: its path starts with `public/` and has no `..` component.
pub proof fn lemma_served_stays_in_public(rel: Seq<char>, f: PathFacts)
    requires
        !has_parent_component(rel),
    ensures
        crate::text::starts_with(served_text(rel, f), "public/"@),
        !has_parent_component(served_text(rel, f)),
{
    reveal_strlit("public");
    reveal_strlit("public/");
    reveal_strlit("index.html");
    reveal_strlit("posts");
    let index = "index.html"@;
    let posts = "posts"@;
    assert forall|i: int| !#[trigger] parent_component_at(index, i) by {
        if parent_component_at(index, i) {
            assert(index[i] == '.');
        }
    }
    assert forall|i: int| !#[trigger] parent_component_at(posts, i) by {
        if parent_component_at(posts, i) {
            assert(posts[i] == '.');
        }
    }
    let c = candidate_text(rel);
    if rel.len() == 0 {
        assert(c =~= "public/"@ + index);
        lemma_public_prefix(index);
    } else {
        assert(c =~= "public/"@ + rel);
        lemma_public_prefix(rel);
    }
    lemma_join_index_under_public(c);
    let pp = join_text("public"@, "posts"@);
    assert(pp =~= "public/"@ + posts);
    lemma_public_prefix(posts);
    let p2 = if f.candidate_is_dir {
        join_text(c, "index.html"@)
    } else {
        c
    };
    lemma_join_index_under_public(p2);
    lemma_join_index_under_public(pp);
    lemma_under_public_facts(served_text(rel, f));
}

} // verus!
