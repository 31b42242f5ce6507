//! Post metadata: the fields of `post/<id>/meta.toml` (or of the Typst
//! source), and the order of the post list.
use vstd::prelude::*;
use crate::date::{date_later, parse_post_date, parsed_date, PostDate};
use crate::parse::{article_call, let_value, parse_article_call, parse_let_value};
use crate::text::{str_chars, string_of, trim, trim_str};

verus! {

broadcast use vstd::string::group_string_axioms;

/// Metadata of one post, used for the post list and the post page.
pub struct PostMeta {
    /// Directory name of the post (`post/<id>/`), also its URL segment.
    pub id: String,
    /// Post title.
    pub title: String,
    /// Publication day, where known.
    pub date: Option<PostDate>,
    /// Last modification, as written in `meta.toml`.
    pub updated: Option<String>,
    /// Drafts are left out of publication.
    pub draft: bool,
}

/// The day of an optional date, as year, month and day.
pub open spec fn date_view(d: Option<PostDate>) -> Option<(int, int, int)> {
    match d {
        Some(x) => Some(x.ymd()),
        None => None,
    }
}

// ---------------------------------------------------------------------------
// Building metadata
// ---------------------------------------------------------------------------

/// Why `meta.toml` fields do not make a post.
pub enum MetaError {
    /// `date` is not a `YYYY-MM-DD` date (the text as written).
    InvalidDate(String),
}

impl MetaError {
    /// A message for the user, quoting the refused text.
    pub fn message(&self) -> (r: String)
        ensures
            r@ == match self {
                MetaError::InvalidDate(raw) => "meta.toml 中 date 须为 YYYY-MM-DD，实际: "@ + raw@,
            },
    {
        match self {
            MetaError::InvalidDate(raw) => {
                let mut m = String::from_str("meta.toml 中 date 须为 YYYY-MM-DD，实际: ");
                m.append(raw.as_str());
                m
            },
        }
    }
}

/// Metadata from the fields of `meta.toml`: the date (trimmed) must parse as
/// `%Y-%m-%d`; the other fields are kept as they are.
pub fn post_meta_from_fields(
    id: String,
    title: String,
    date: String,
    updated: Option<String>,
    draft: bool,
) -> (r: Result<PostMeta, MetaError>)
    ensures
        match parsed_date(trim(date@)) {
            Some(t) => (r matches Ok(m) && m.id == id && m.title == title && date_view(m.date)
                == Some(t) && m.updated == updated && m.draft == draft),
            None => (r matches Err(MetaError::InvalidDate(raw)) && raw@ == date@),
        },
{
    let trimmed = string_of(&trim_str(date.as_str()));
    match parse_post_date(trimmed.as_str()) {
        Some(d) => Ok(PostMeta { id, title, date: Some(d), updated, draft }),
        None => Err(MetaError::InvalidDate(date)),
    }
}

/// Title and date read from a Typst source: from `#article("title",
/// "date")` when present, otherwise from `#let title = "..."` and
/// `#let date = "..."` (the title defaulting to the post id). A date that
/// does not parse as `%Y-%m-%d` is dropped.
pub open spec fn content_title(id: Seq<char>, content: Seq<char>) -> Seq<char> {
    match article_call(content) {
        Some((t, _)) => t,
        None => match let_value(content, "title"@) {
            Some(t) => t,
            None => id,
        },
    }
}

/// See `content_title`.
pub open spec fn content_date(content: Seq<char>) -> Option<(int, int, int)> {
    match article_call(content) {
        Some((_, d)) => parsed_date(d),
        None => match let_value(content, "date"@) {
            Some(d) => parsed_date(d),
            None => None,
        },
    }
}

/// Metadata of the post `id` from its Typst source.
pub fn post_meta_from_content(id: &str, content: &str) -> (r: PostMeta)
    ensures
        r.id@ == id@,
        r.title@ == content_title(id@, content@),
        date_view(r.date) == content_date(content@),
        r.updated is None,
        !r.draft,
{
    match parse_article_call(content) {
        Some((t, d)) => {
            let date = parse_post_date(d.as_str());
            PostMeta {
                id: String::from_str(id),
                title: t,
                date,
                updated: None,
                draft: false,
            }
        },
        None => {
            let title = match parse_let_value(content, "title") {
                Some(t) => t,
                None => String::from_str(id),
            };
            let date = match parse_let_value(content, "date") {
                Some(d) => parse_post_date(d.as_str()),
                None => None,
            };
            PostMeta { id: String::from_str(id), title, date, updated: None, draft: false }
        },
    }
}

// ---------------------------------------------------------------------------
// Order of the post list
// ---------------------------------------------------------------------------

/// Lexicographic order of texts (the order of `String`: by code points).
pub open spec fn text_less(a: Seq<char>, b: Seq<char>) -> bool
    decreases a.len(),
{
    if a.len() == 0 {
        b.len() > 0
    } else if b.len() == 0 {
        false
    } else if a[0] != b[0] {
        (a[0] as int) < (b[0] as int)
    } else {
        text_less(a.drop_first(), b.drop_first())
    }
}

/// `a` comes before `b` in the post list: later dates first, dated posts
/// before undated ones, undated posts by id.
pub open spec fn post_before(a: PostMeta, b: PostMeta) -> bool {
    match (a.date, b.date) {
        (Some(da), Some(db)) => date_later(da.ymd(), db.ymd()),
        (Some(_), None) => true,
        (None, Some(_)) => false,
        (None, None) => text_less(a.id@, b.id@),
    }
}

/// Neither post comes before the other.
pub open spec fn post_tied(a: PostMeta, b: PostMeta) -> bool {
    !post_before(a, b) && !post_before(b, a)
}

/// No post comes before one that precedes it.
pub open spec fn posts_ordered(s: Seq<PostMeta>) -> bool {
    forall|i: int, j: int| 0 <= i < j < s.len() ==> !post_before(#[trigger] s[j], #[trigger] s[i])
}

/// `p` lists each of `0..n` exactly once.
pub open spec fn is_permutation(p: Seq<int>, n: int) -> bool {
    &&& p.len() == n
    &&& forall|k: int| 0 <= k < n ==> 0 <= #[trigger] p[k] < n
    &&& forall|a: int, b: int| 0 <= a < b < n ==> #[trigger] p[a] != #[trigger] p[b]
}

/// `new` is `old` reordered by `p`, and tied posts keep their relative order.
pub open spec fn stable_reorder_by(old: Seq<PostMeta>, new: Seq<PostMeta>, p: Seq<int>) -> bool {
    &&& new.len() == old.len()
    &&& is_permutation(p, old.len() as int)
    &&& forall|k: int| 0 <= k < new.len() ==> #[trigger] new[k] == old[p[k]]
    &&& forall|a: int, b: int|
        0 <= a < b < new.len() && post_tied(new[a], new[b]) ==> #[trigger] p[a] < #[trigger] p[b]
}

/// `new` is a stable reordering of `old`.
pub open spec fn stable_reorder(old: Seq<PostMeta>, new: Seq<PostMeta>) -> bool {
    exists|p: Seq<int>| stable_reorder_by(old, new, p)
}

/// Between two dated posts the later date comes first (by year, then
/// month, then day), and only then: posts of the same day are tied.
pub proof fn lemma_dated_post_order(a: PostMeta, b: PostMeta)
    requires
        a.date is Some,
        b.date is Some,
    ensures
        post_before(a, b) <==> ({
            let (ya, ma, da) = a.date->0.ymd();
            let (yb, mb, db) = b.date->0.ymd();
            ya > yb || (ya == yb && (ma > mb || (ma == mb && da > db)))
        }),
{
}

/// In an ordered post list, a dated post never comes before a dated post
/// of a later day.
pub proof fn lemma_ordered_dates_descend(s: Seq<PostMeta>, i: int, j: int)
    requires
        posts_ordered(s),
        0 <= i < j < s.len(),
        s[i].date is Some,
        s[j].date is Some,
    ensures
        ({
            let (yi, mi, di) = s[i].date->0.ymd();
            let (yj, mj, dj) = s[j].date->0.ymd();
            yi > yj || (yi == yj && (mi > mj || (mi == mj && di >= dj)))
        }),
{
    lemma_dated_post_order(s[j], s[i]);
}

/// `a` and `b` agree on their first `k` characters and differ from there
/// on in `a`'s favour: `a` ends at `k` while `b` goes on, or `a`'s character
/// at `k` has the smaller code point.
pub open spec fn first_difference_favours(a: Seq<char>, b: Seq<char>, k: int) -> bool {
    &&& 0 <= k <= a.len()
    &&& k < b.len()
    &&& a.subrange(0, k) == b.subrange(0, k)
    &&& (k == a.len() || (a[k] as int) < (b[k] as int))
}

/// `text_less` is the order of `String`: `a` comes first exactly when, at
/// the first place where the texts differ, `a` has ended or has the smaller
/// character.
pub proof fn lemma_text_less_first_difference(a: Seq<char>, b: Seq<char>)
    ensures
        text_less(a, b) <==> exists|k: int| #[trigger] first_difference_favours(a, b, k),
    decreases a.len(),
{
    if a.len() == 0 {
        if b.len() > 0 {
            assert(first_difference_favours(a, b, 0));
        }
    } else if b.len() == 0 {
    } else if a[0] != b[0] {
        if (a[0] as int) < (b[0] as int) {
            assert(a.subrange(0, 0) =~= b.subrange(0, 0));
            assert(first_difference_favours(a, b, 0));
        }
        assert forall|k: int| first_difference_favours(a, b, k) implies k == 0 by {
            if k > 0 {
                assert(a.subrange(0, k)[0] == b.subrange(0, k)[0]);
            }
        }
    } else {
        let a1 = a.drop_first();
        let b1 = b.drop_first();
        lemma_text_less_first_difference(a1, b1);
        if text_less(a1, b1) {
            let k = choose|k: int| first_difference_favours(a1, b1, k);
            assert(a.subrange(0, k + 1) =~= seq![a[0]] + a1.subrange(0, k));
            assert(b.subrange(0, k + 1) =~= seq![b[0]] + b1.subrange(0, k));
            assert(first_difference_favours(a, b, k + 1));
        }
        assert forall|k: int| first_difference_favours(a, b, k) implies first_difference_favours(
            a1,
            b1,
            k - 1,
        ) by {
            assert(a1.subrange(0, k - 1) =~= a.subrange(0, k).drop_first());
            assert(b1.subrange(0, k - 1) =~= b.subrange(0, k).drop_first());
        }
    }
}

/// A dated post comes before an undated one; posts without a date come in
/// the order of their ids.
pub proof fn lemma_undated_post_order(a: PostMeta, b: PostMeta)
    ensures
        a.date is Some && b.date is None ==> post_before(a, b) && !post_before(b, a),
        a.date is None && b.date is None ==> (post_before(a, b) <==> text_less(a.id@, b.id@)),
{
}

/// `text_less` never holds both ways, nor of equal texts.
pub proof fn lemma_text_less_asym(a: Seq<char>, b: Seq<char>)
    ensures
        !(text_less(a, b) && text_less(b, a)),
        !text_less(a, a),
    decreases a.len(),
{
    if a.len() > 0 && b.len() > 0 && a[0] == b[0] {
        lemma_text_less_asym(a.drop_first(), b.drop_first());
    }
    if a.len() > 0 {
        lemma_text_less_asym(a.drop_first(), a.drop_first());
    }
}

/// `text_less` is transitive.
pub proof fn lemma_text_less_trans(a: Seq<char>, b: Seq<char>, c: Seq<char>)
    requires
        text_less(a, b),
        text_less(b, c),
    ensures
        text_less(a, c),
    decreases a.len(),
{
    if a.len() > 0 && b.len() > 0 && c.len() > 0 && a[0] == b[0] && b[0] == c[0] {
        lemma_text_less_trans(a.drop_first(), b.drop_first(), c.drop_first());
    }
}

/// Distinct texts are ordered one way or the other.
pub proof fn lemma_text_less_total(a: Seq<char>, b: Seq<char>)
    ensures
        a == b || text_less(a, b) || text_less(b, a),
    decreases a.len(),
{
    if a.len() > 0 && b.len() > 0 && a[0] == b[0] {
        lemma_text_less_total(a.drop_first(), b.drop_first());
        if a.drop_first() == b.drop_first() {
            assert(a == seq![a[0]] + a.drop_first());
            assert(b == seq![b[0]] + b.drop_first());
        }
    }
    if a.len() == 0 && b.len() == 0 {
        assert(a == b);
    }
}

/// `post_before` is asymmetric (and so irreflexive).
pub proof fn lemma_post_before_asym(a: PostMeta, b: PostMeta)
    ensures
        !(post_before(a, b) && post_before(b, a)),
        !post_before(a, a),
{
    lemma_text_less_asym(a.id@, b.id@);
}

/// If neither `y` before `x` nor `z` before `y`, then not `z` before `x`.
pub proof fn lemma_post_before_neg_trans(x: PostMeta, y: PostMeta, z: PostMeta)
    requires
        !post_before(y, x),
        !post_before(z, y),
    ensures
        !post_before(z, x),
{
    if x.date is None && y.date is None && z.date is None {
        lemma_text_less_total(x.id@, y.id@);
        lemma_text_less_total(y.id@, z.id@);
        if text_less(z.id@, x.id@) {
            if text_less(x.id@, y.id@) {
                lemma_text_less_trans(z.id@, x.id@, y.id@);
                lemma_text_less_total(z.id@, y.id@);
                lemma_text_less_asym(z.id@, y.id@);
                if text_less(y.id@, z.id@) {
                } else {
                    assert(y.id@ == z.id@);
                    lemma_text_less_asym(y.id@, y.id@);
                }
            } else {
                assert(x.id@ == y.id@);
                if text_less(y.id@, z.id@) {
                    lemma_text_less_asym(y.id@, z.id@);
                } else {
                    assert(y.id@ == z.id@);
                    lemma_text_less_asym(z.id@, z.id@);
                }
            }
        }
    }
}

/// `<[T]>::swap`: claimed to exchange the elements at `a` and `b` and leave
/// the others in place (both indices in bounds, where it does not panic).
#[verifier::external_body]
fn slice_swap<T>(s: &mut [T], a: usize, b: usize)
    requires
        a < old(s)@.len(),
        b < old(s)@.len(),
    ensures
        final(s)@ == old(s)@.update(a as int, old(s)@[b as int]).update(b as int, old(s)@[a as int]),
{
    s.swap(a, b);
}

/// `text_less` computed.
fn text_less_exec(a: &str, b: &str) -> (r: bool)
    ensures
        r == text_less(a@, b@),
{
    let x = str_chars(a);
    let y = str_chars(b);
    let mut k: usize = 0;
    assert(x@.skip(0) == x@);
    assert(y@.skip(0) == y@);
    loop
        invariant
            k <= x@.len(),
            k <= y@.len(),
            text_less(a@, b@) == text_less(x@.skip(k as int), y@.skip(k as int)),
            x@ == a@,
            y@ == b@,
        decreases x@.len() - k,
    {
        if k == x.len() {
            return k < y.len();
        }
        if k == y.len() {
            return false;
        }
        if x[k] != y[k] {
            assert(x@.skip(k as int)[0] == x@[k as int]);
            assert(y@.skip(k as int)[0] == y@[k as int]);
            return x[k] < y[k];
        }
        assert(x@.skip(k as int).drop_first() == x@.skip(k + 1));
        assert(y@.skip(k as int).drop_first() == y@.skip(k + 1));
        k = k + 1;
    }
}

/// `post_before` computed.
fn post_before_exec(a: &PostMeta, b: &PostMeta) -> (r: bool)
    ensures
        r == post_before(*a, *b),
{
    match (&a.date, &b.date) {
        (Some(da), Some(db)) => da.is_later_than(db),
        (Some(_), None) => true,
        (None, Some(_)) => false,
        (None, None) => text_less_exec(a.id.as_str(), b.id.as_str()),
    }
}

/// No id comes before one that precedes it in `text_less`, the order of
/// `String` (byte order of UTF-8 text).
pub open spec fn ids_ordered(s: Seq<String>) -> bool {
    forall|i: int, j: int| 0 <= i < j < s.len() ==> !text_less(#[trigger] s[j]@, #[trigger] s[i]@)
}

/// Exchanging two elements keeps the multiset of a sequence.
proof fn lemma_swap_multiset<A>(s: Seq<A>, a: int, b: int)
    requires
        0 <= a < s.len(),
        0 <= b < s.len(),
    ensures
        s.update(a, s[b]).update(b, s[a]).to_multiset() == s.to_multiset(),
{
    broadcast use vstd::seq_lib::to_multiset_update;
    broadcast use vstd::multiset::group_multiset_axioms;

    let s1 = s.update(a, s[b]);
    assert(s1.len() == s.len());
    assert(s1.to_multiset() == s.to_multiset().insert(s[b]).remove(s[a]));
    assert(s1.update(b, s[a]).to_multiset() == s1.to_multiset().insert(s[a]).remove(s1[b]));
    if a == b {
        assert(s1 =~= s);
        assert(s1.update(b, s[a]) =~= s);
    } else {
        broadcast use vstd::seq_lib::to_multiset_contains;
        broadcast use vstd::multiset::group_multiset_properties;

        assert(s1[b] == s[b]);
        let m = s.to_multiset();
        assert(s.contains(s[a]));
        assert(m.count(s[a]) > 0);
        let m1 = m.insert(s[b]).remove(s[a]);
        let m2 = m1.insert(s[a]).remove(s[b]);
        assert forall|v: A| m2.count(v) == m.count(v) by {
            if v == s[a] && v == s[b] {
            } else if v == s[a] {
            } else if v == s[b] {
            } else {
            }
        }
        assert(m2 =~= m);
    }
}

/// `!text_less(x, y)` and `!text_less(y, z)` give `!text_less(x, z)`.
proof fn lemma_text_less_neg_trans(x: Seq<char>, y: Seq<char>, z: Seq<char>)
    requires
        !text_less(x, y),
        !text_less(y, z),
    ensures
        !text_less(x, z),
{
    lemma_text_less_total(y, z);
    if text_less(x, z) && text_less(z, y) {
        lemma_text_less_trans(x, z, y);
    }
}

/// Sorts post ids in the order of `String` (the order in which the post
/// directories are taken).
pub fn sort_post_ids(ids: &mut [String])
    ensures
        ids_ordered(final(ids)@),
        final(ids)@.to_multiset() == old(ids)@.to_multiset(),
{
    let n = ids.len();
    let ghost orig = ids@;
    let mut i: usize = 0;
    while i < n
        invariant
            n == ids@.len(),
            i <= n,
            ids@.to_multiset() == orig.to_multiset(),
            forall|a: int, b: int|
                0 <= a < b < i ==> !text_less(#[trigger] ids@[b]@, #[trigger] ids@[a]@),
        decreases n - i,
    {
        let ghost pre = ids@;
        let ghost x = ids@[i as int];
        let mut j: usize = i;
        while j > 0 && text_less_exec(ids[j].as_str(), ids[j - 1].as_str())
            invariant
                n == ids@.len(),
                i < n,
                j <= i,
                pre.len() == n,
                ids@[j as int] == x,
                forall|k: int| 0 <= k < j ==> #[trigger] ids@[k] == pre[k],
                forall|k: int| j < k <= i ==> #[trigger] ids@[k] == pre[k - 1],
                forall|k: int| i < k < n ==> #[trigger] ids@[k] == pre[k],
                forall|k: int| j < k <= i ==> text_less(x@, #[trigger] ids@[k]@),
                forall|a: int, b: int|
                    0 <= a < b < i ==> !text_less(#[trigger] pre[b]@, #[trigger] pre[a]@),
                ids@.to_multiset() == orig.to_multiset(),
            decreases j,
        {
            proof {
                lemma_swap_multiset(ids@, j - 1, j as int);
            }
            slice_swap(ids, j - 1, j);
            j = j - 1;
        }
        proof {
            assert forall|a: int, b: int| 0 <= a < b <= i implies !text_less(
                #[trigger] ids@[b]@,
                #[trigger] ids@[a]@,
            ) by {
                if b == j {
                    if a < j - 1 {
                        assert(!text_less(pre[j - 1]@, pre[a]@));
                        lemma_text_less_neg_trans(x@, pre[j - 1]@, pre[a]@);
                    }
                } else if a == j {
                    lemma_text_less_asym(x@, ids@[b]@);
                } else {
                    let pa = if a < j { a } else { a - 1 };
                    let pb = if b < j { b } else { b - 1 };
                    assert(!text_less(pre[pb]@, pre[pa]@));
                }
            }
        }
        i = i + 1;
    }
}

/// Sorts the post list: newest first, undated posts last (by id); posts
/// that tie keep their order.
pub fn sort_posts_desc(posts: &mut [PostMeta])
    ensures
        posts_ordered(final(posts)@),
        stable_reorder(old(posts)@, final(posts)@),
{
    let n = posts.len();
    let ghost orig = posts@;
    let ghost mut perm: Seq<int> = Seq::new(n as nat, |k: int| k);
    let mut i: usize = 0;
    while i < n
        invariant
            n == posts@.len(),
            orig.len() == n,
            i <= n,
            perm.len() == n,
            forall|k: int| 0 <= k < n ==> #[trigger] posts@[k] == orig[perm[k]],
            forall|k: int| i <= k < n ==> #[trigger] perm[k] == k,
            forall|k: int| 0 <= k < i ==> 0 <= #[trigger] perm[k] < i,
            forall|a: int, b: int| 0 <= a < b < i ==> #[trigger] perm[a] != #[trigger] perm[b],
            forall|a: int, b: int|
                0 <= a < b < i ==> !post_before(#[trigger] posts@[b], #[trigger] posts@[a]),
            forall|a: int, b: int|
                0 <= a < b < i && post_tied(posts@[a], posts@[b]) ==> #[trigger] perm[a]
                    < #[trigger] perm[b],
        decreases n - i,
    {
        let ghost pre = posts@;
        let ghost pre_perm = perm;
        let ghost x = posts@[i as int];
        let mut j: usize = i;
        while j > 0 && post_before_exec(&posts[j], &posts[j - 1])
            invariant
                n == posts@.len(),
                orig.len() == n,
                i < n,
                j <= i,
                pre.len() == n,
                pre_perm.len() == n,
                perm.len() == n,
                posts@[j as int] == x,
                perm[j as int] == i,
                forall|k: int| 0 <= k < j ==> #[trigger] posts@[k] == pre[k],
                forall|k: int| 0 <= k < j ==> #[trigger] perm[k] == pre_perm[k],
                forall|k: int| j < k <= i ==> #[trigger] posts@[k] == pre[k - 1],
                forall|k: int| j < k <= i ==> #[trigger] perm[k] == pre_perm[k - 1],
                forall|k: int| i < k < n ==> #[trigger] posts@[k] == pre[k],
                forall|k: int| i < k < n ==> #[trigger] perm[k] == pre_perm[k],
                forall|k: int| j < k <= i ==> post_before(x, #[trigger] posts@[k]),
                forall|k: int| 0 <= k < n ==> #[trigger] pre[k] == orig[pre_perm[k]],
                forall|k: int| 0 <= k < n ==> #[trigger] posts@[k] == orig[perm[k]],
                forall|k: int| i <= k < n ==> #[trigger] pre_perm[k] == k,
                forall|k: int| 0 <= k < i ==> 0 <= #[trigger] pre_perm[k] < i,
                forall|a: int, b: int|
                    0 <= a < b < i ==> #[trigger] pre_perm[a] != #[trigger] pre_perm[b],
                forall|a: int, b: int|
                    0 <= a < b < i ==> !post_before(#[trigger] pre[b], #[trigger] pre[a]),
                forall|a: int, b: int|
                    0 <= a < b < i && post_tied(pre[a], pre[b]) ==> #[trigger] pre_perm[a]
                        < #[trigger] pre_perm[b],
            decreases j,
        {
            slice_swap(posts, j - 1, j);
            proof {
                let pj = perm[j as int];
                let pj1 = perm[j - 1];
                perm = perm.update(j as int, pj1).update(j - 1, pj);
            }
            j = j - 1;
        }
        proof {
            assert forall|a: int, b: int| 0 <= a < b <= i implies !post_before(
                #[trigger] posts@[b],
                #[trigger] posts@[a],
            ) by {
                if b == j {
                    if a < j - 1 {
                        lemma_post_before_neg_trans(pre[a], pre[j - 1], x);
                    }
                } else if a == j {
                    lemma_post_before_asym(x, posts@[b]);
                } else {
                    let pa = if a < j { a } else { a - 1 };
                    let pb = if b < j { b } else { b - 1 };
                    assert(!post_before(pre[pb], pre[pa]));
                }
            }
            assert forall|a: int, b: int|
                0 <= a < b <= i && post_tied(posts@[a], posts@[b]) implies #[trigger] perm[a]
                < #[trigger] perm[b] by {
                if b == j {
                } else if a == j {
                } else {
                    let pa = if a < j { a } else { a - 1 };
                    let pb = if b < j { b } else { b - 1 };
                    assert(post_tied(pre[pa], pre[pb]));
                }
            }
            assert forall|a: int, b: int| 0 <= a < b <= i implies #[trigger] perm[a]
                != #[trigger] perm[b] by {
                if b == j {
                } else if a == j {
                } else {
                    let pa = if a < j { a } else { a - 1 };
                    let pb = if b < j { b } else { b - 1 };
                    assert(pre_perm[pa] != pre_perm[pb]);
                }
            }
            assert forall|k: int| 0 <= k <= i implies 0 <= #[trigger] perm[k] <= i by {
                if k < j {
                } else if k > j {
                    assert(perm[k] == pre_perm[k - 1]);
                }
            }
        }
        i = i + 1;
    }
    proof {
        assert(stable_reorder_by(orig, posts@, perm));
    }
}

/// A source with `#article("title", "date")` gives that title, and the
/// date that chrono parses from the date text, when neither holds a `"`.
pub proof fn lemma_article_meta(id: Seq<char>, title: Seq<char>, date: Seq<char>, tail: Seq<char>)
    requires
        forall|k: int| 0 <= k < title.len() ==> #[trigger] title[k] != '"',
        forall|k: int| 0 <= k < date.len() ==> #[trigger] date[k] != '"',
    ensures
        content_title(id, "#article(\""@ + title + "\", \""@ + date + "\")"@ + tail) == title,
        content_date("#article(\""@ + title + "\", \""@ + date + "\")"@ + tail) == parsed_date(date),
{
    crate::parse::lemma_article_call_reads_back(title, date, tail);
}

/// A strictly increasing permutation of `0..n` is the identity.
proof fn lemma_increasing_permutation(p: Seq<int>, n: int)
    requires
        is_permutation(p, n),
        forall|a: int, b: int| 0 <= a < b < n ==> #[trigger] p[a] < #[trigger] p[b],
    ensures
        forall|k: int| 0 <= k < n ==> #[trigger] p[k] == k,
{
    assert forall|k: int| 0 <= k < n implies p[k] >= k by {
        lemma_increasing_lower(p, n, k);
    }
    assert forall|k: int| 0 <= k < n implies p[k] <= k by {
        lemma_increasing_top(p, n, k);
    }
}

proof fn lemma_increasing_lower(p: Seq<int>, n: int, k: int)
    requires
        is_permutation(p, n),
        forall|a: int, b: int| 0 <= a < b < n ==> #[trigger] p[a] < #[trigger] p[b],
        0 <= k < n,
    ensures
        p[k] >= k,
    decreases k,
{
    if k > 0 {
        lemma_increasing_lower(p, n, k - 1);
        assert(p[k - 1] < p[k]);
    }
}

proof fn lemma_increasing_top(p: Seq<int>, n: int, k: int)
    requires
        is_permutation(p, n),
        forall|a: int, b: int| 0 <= a < b < n ==> #[trigger] p[a] < #[trigger] p[b],
        0 <= k < n,
    ensures
        p[k] <= k,
    decreases n - k,
{
    if k == n - 1 {
        assert(p[k] < n);
    } else {
        lemma_increasing_top(p, n, k + 1);
        assert(p[k] < p[k + 1]);
    }
}

/// An ordered list has only one stable ordering: itself. So sorting a list
/// that is already in order (for instance, sorting twice) changes nothing.
pub proof fn lemma_ordered_stable_reorder_is_identity(old: Seq<PostMeta>, new: Seq<PostMeta>)
    requires
        posts_ordered(old),
        posts_ordered(new),
        stable_reorder(old, new),
    ensures
        new == old,
{
    let p = choose|p: Seq<int>| stable_reorder_by(old, new, p);
    let n = old.len() as int;
    assert forall|a: int, b: int| 0 <= a < b < n implies #[trigger] p[a] < #[trigger] p[b] by {
        if !post_tied(new[a], new[b]) {
            assert(!post_before(new[b], new[a]));
            assert(post_before(new[a], new[b]));
            assert(p[a] != p[b]);
            if p[a] > p[b] {
                assert(!post_before(old[p[a]], old[p[b]]));
            }
        }
    }
    lemma_increasing_permutation(p, n);
    assert(new =~= old);
}

/// The posts that are not drafts, in list order.
pub open spec fn published(posts: Seq<PostMeta>) -> Seq<PostMeta> {
    posts.filter(|p: PostMeta| !p.draft)
}

/// The posts to build and list: all but the drafts, in their order.
pub fn publishable_posts(posts: Vec<PostMeta>) -> (r: Vec<PostMeta>)
    ensures
        r@ == published(posts@),
{
    let ghost all = posts@;
    let mut out: Vec<PostMeta> = Vec::new();
    let mut rest = posts;
    let ghost mut done: Seq<PostMeta> = Seq::empty();
    while rest.len() > 0
        invariant
            all == done + rest@,
            out@ == published(done),
        decreases rest@.len(),
    {
        let p = rest.remove(0);
        proof {
            reveal(Seq::filter);
            let nd = done.push(p);
            assert(nd.drop_last() == done);
            assert(nd.last() == p);
            assert(all == nd + rest@);
            done = nd;
        }
        if !p.draft {
            out.push(p);
        }
    }
    assert(done == all);
    out
}

} // verus!
