//! Reading a post's title and date out of its Typst source: the
//! `#article("title", "date")` call, or `#let title = "..."` lines.
use vstd::prelude::*;
use crate::text::{
    is_ws, lemma_find_first, lemma_ws_skip, occurs_at, ws_skip,
    find, find_vec, lemma_find_in_bounds, lemma_line_end, line_at, line_at_exec, line_end,
    line_end_exec, starts_with, starts_with_vec, str_chars, string_of, string_of_range,
    sub_vec, trim, trim_start, trim_start_vec, trim_vec,
};

verus! {

broadcast use vstd::string::group_string_axioms;

/// A double-quoted string at the start of `rest` (after white space): its
/// contents up to the next `"`, and what follows that closing quote.
pub open spec fn leading_quoted(rest: Seq<char>) -> Option<(Seq<char>, Seq<char>)> {
    let s = trim_start(rest);
    if s.len() > 0 && s[0] == '"' {
        let t = s.subrange(1, s.len() as int);
        match find(t, seq!['"']) {
            Some(e) => Some((t.subrange(0, e), t.subrange(e + 1, t.len() as int))),
            None => None,
        }
    } else {
        None
    }
}

/// `leading_quoted` computed: the value and the remainder.
fn leading_quoted_vec(rest: &Vec<char>) -> (r: Option<(Vec<char>, Vec<char>)>)
    ensures
        match leading_quoted(rest@) {
            Some((v, tail)) => (r matches Some((a, b)) && a@ == v && b@ == tail),
            None => r is None,
        },
{
    let s = trim_start_vec(rest);
    if s.len() > 0 && s[0] == '"' {
        let t = sub_vec(&s, 1, s.len());
        let mut q: Vec<char> = Vec::new();
        q.push('"');
        assert(q@ == seq!['"']);
        match find_vec(&t, &q) {
            Some(e) => {
                proof {
                    lemma_find_in_bounds(t@, q@, 0);
                }
                let a = sub_vec(&t, 0, e);
                let b = sub_vec(&t, e + 1, t.len());
                Some((a, b))
            },
            None => None,
        }
    } else {
        None
    }
}

/// Reads a double-quoted string at the start of `*rest` (after white
/// space) and advances `*rest` past its closing quote. On failure `*rest`
/// is left as it was.
pub fn parse_leading_quoted(rest: &mut &str) -> (r: Option<String>)
    ensures
        match leading_quoted(old(rest)@) {
            Some((v, tail)) => (r matches Some(x) && x@ == v && final(rest)@ == tail),
            None => r is None && final(rest)@ == old(rest)@,
        },
{
    let cur: &str = *rest;
    let v = str_chars(cur);
    let skipped = crate::text::ws_skip_exec(&v, 0);
    let s = sub_vec(&v, skipped, v.len());
    if s.len() > 0 && s[0] == '"' {
        let t = sub_vec(&s, 1, s.len());
        let mut q: Vec<char> = Vec::new();
        q.push('"');
        assert(q@ == seq!['"']);
        match find_vec(&t, &q) {
            Some(e) => {
                proof {
                    lemma_find_in_bounds(t@, q@, 0);
                }
                let val = string_of_range(&t, 0, e);
                let start = skipped + 1 + e + 1;
                assert(v@.subrange(start as int, v@.len() as int) == t@.subrange(
                    e + 1,
                    t@.len() as int,
                ));
                *rest = cur.substring_char(start, v.len());
                Some(val)
            },
            None => None,
        }
    } else {
        None
    }
}

/// `#article("title", "date")`: the first `#article(` call's two leading
/// quoted arguments, separated by a comma.
pub open spec fn article_call(content: Seq<char>) -> Option<(Seq<char>, Seq<char>)> {
    match find(content, "#article("@) {
        None => None,
        Some(idx) => match leading_quoted(content.subrange(idx + 9, content.len() as int)) {
            None => None,
            Some((title, r1)) => {
                let r2 = trim_start(r1);
                if r2.len() > 0 && r2[0] == ',' {
                    match leading_quoted(trim_start(r2.subrange(1, r2.len() as int))) {
                        Some((date, _)) => Some((title, date)),
                        None => None,
                    }
                } else {
                    None
                }
            },
        },
    }
}

/// Parses `#article("title", "date")` (positional, double-quoted arguments).
pub fn parse_article_call(content: &str) -> (r: Option<(String, String)>)
    ensures
        match article_call(content@) {
            Some((t, d)) => (r matches Some((a, b)) && a@ == t && b@ == d),
            None => r is None,
        },
{
    proof {
        reveal_strlit("#article(");
    }
    let v = str_chars(content);
    let call = str_chars("#article(");
    let idx = match find_vec(&v, &call) {
        Some(i) => i,
        None => return None,
    };
    proof {
        lemma_find_in_bounds(v@, call@, 0);
    }
    assert(call@.len() == 9);
    let n = v.len();
    let rest = sub_vec(&v, idx + 9, n);
    let (title, r1) = match leading_quoted_vec(&rest) {
        Some(x) => x,
        None => return None,
    };
    let r2 = trim_start_vec(&r1);
    if r2.len() > 0 && r2[0] == ',' {
        let r3 = sub_vec(&r2, 1, r2.len());
        let r4 = trim_start_vec(&r3);
        match leading_quoted_vec(&r4) {
            Some((date, _)) => Some((string_of(&title), string_of(&date))),
            None => None,
        }
    } else {
        None
    }
}

/// `#let <key> = "`.
pub open spec fn let_prefix(key: Seq<char>) -> Seq<char> {
    "#let "@ + key + " = \""@
}

/// The value of `#let <key> = "<value>"` on one (trimmed) line.
pub open spec fn let_value_in_line(line: Seq<char>, key: Seq<char>) -> Option<Seq<char>> {
    let t = trim(line);
    let p = let_prefix(key);
    if starts_with(t, p) {
        let rest = t.subrange(p.len() as int, t.len() as int);
        match find(rest, seq!['"']) {
            Some(e) => Some(rest.subrange(0, e)),
            None => None,
        }
    } else {
        None
    }
}

/// The first `#let <key> = "..."` value among at most `budget` lines from
/// the line starting at `i`.
pub open spec fn let_value_from(s: Seq<char>, key: Seq<char>, i: int, budget: nat) -> Option<
    Seq<char>,
>
    decreases s.len() + 1 - i
    via let_value_from_decreases
{
    if i < 0 || i >= s.len() || budget == 0 {
        None
    } else {
        match let_value_in_line(line_at(s, i), key) {
            Some(v) => Some(v),
            None => let_value_from(s, key, line_end(s, i) + 1, (budget - 1) as nat),
        }
    }
}

#[via_fn]
proof fn let_value_from_decreases(s: Seq<char>, key: Seq<char>, i: int, budget: nat) {
    if 0 <= i < s.len() {
        lemma_line_end(s, i);
    }
}

/// The value of the first `#let <key> = "<value>"` line among the first 128
/// lines of `content`.
pub open spec fn let_value(content: Seq<char>, key: Seq<char>) -> Option<Seq<char>> {
    let_value_from(content, key, 0, 128)
}

/// Reads `#let <key> = "<value>"` from the first 128 lines.
pub fn parse_let_value(content: &str, key: &str) -> (r: Option<String>)
    ensures
        match let_value(content@, key@) {
            Some(v) => (r matches Some(x) && x@ == v),
            None => r is None,
        },
{
    proof {
        reveal_strlit("#let ");
        reveal_strlit(" = \"");
    }
    let v = str_chars(content);
    let mut pfx = str_chars("#let ");
    let k = str_chars(key);
    let mut j: usize = 0;
    while j < k.len()
        invariant
            j <= k@.len(),
            pfx@ == "#let "@ + k@.subrange(0, j as int),
        decreases k@.len() - j,
    {
        pfx.push(k[j]);
        j = j + 1;
        assert(k@.subrange(0, j as int) == k@.subrange(0, j - 1).push(k@[j - 1]));
    }
    let tail = str_chars(" = \"");
    let mut j: usize = 0;
    let ghost p0 = pfx@;
    while j < tail.len()
        invariant
            j <= tail@.len(),
            pfx@ == p0 + tail@.subrange(0, j as int),
        decreases tail@.len() - j,
    {
        pfx.push(tail[j]);
        j = j + 1;
        assert(tail@.subrange(0, j as int) == tail@.subrange(0, j - 1).push(tail@[j - 1]));
    }
    assert(k@.subrange(0, k@.len() as int) == k@);
    assert(tail@.subrange(0, tail@.len() as int) == tail@);
    assert(pfx@ == let_prefix(key@));
    let mut q: Vec<char> = Vec::new();
    q.push('"');
    assert(q@ == seq!['"']);
    let mut i: usize = 0;
    let mut budget: usize = 128;
    while i < v.len() && budget > 0
        invariant
            i <= v@.len(),
            v@ == content@,
            budget <= 128,
            pfx@ == let_prefix(key@),
            q@ == seq!['"'],
            let_value(v@, key@) == let_value_from(v@, key@, i as int, budget as nat),
        decreases v@.len() - i,
    {
        let e = line_end_exec(&v, i);
        let line = line_at_exec(&v, i, e);
        let t = trim_vec(&line);
        if starts_with_vec(&t, &pfx) {
            let rest = sub_vec(&t, pfx.len(), t.len());
            match find_vec(&rest, &q) {
                Some(end) => {
                    proof {
                        lemma_find_in_bounds(rest@, q@, 0);
                    }
                    assert(let_value_in_line(line_at(v@, i as int), key@) == Some(
                        rest@.subrange(0, end as int),
                    ));
                    assert(let_value_from(v@, key@, i as int, budget as nat) == let_value_in_line(
                        line_at(v@, i as int),
                        key@,
                    ));
                    return Some(string_of_range(&rest, 0, end));
                },
                None => {},
            }
        }
        assert(let_value_in_line(line_at(v@, i as int), key@) is None);
        assert(let_value_from(v@, key@, i as int, budget as nat) == let_value_from(
            v@,
            key@,
            e + 1,
            (budget - 1) as nat,
        ));
        if e >= v.len() {
            assert(let_value_from(v@, key@, (e + 1) as int, (budget - 1) as nat) is None);
            return None;
        }
        i = e + 1;
        budget = budget - 1;
    }
    None
}

// ---------------------------------------------------------------------------
// Laws
// ---------------------------------------------------------------------------

/// White space before a non-blank text is what `trim_start` drops.
pub proof fn lemma_trim_start_of_ws_prefix(w: Seq<char>, x: Seq<char>)
    requires
        forall|k: int| 0 <= k < w.len() ==> is_ws(#[trigger] w[k]),
        x.len() > 0,
        !is_ws(x[0]),
    ensures
        trim_start(w + x) == x,
{
    let s = w + x;
    lemma_ws_skip(s, 0);
    let r = ws_skip(s, 0);
    if r < w.len() {
        assert(s[r] == w[r]);
    }
    if r > w.len() {
        assert(s[w.len() as int] == x[0]);
    }
    assert(s.subrange(w.len() as int, s.len() as int) == x);
}

/// `"value"` followed by `tail` reads back as `value` and `tail`, when the
/// value holds no `"`.
pub proof fn lemma_leading_quoted_reads_back(v: Seq<char>, tail: Seq<char>)
    requires
        forall|k: int| 0 <= k < v.len() ==> #[trigger] v[k] != '"',
    ensures
        leading_quoted(seq!['"'] + v + seq!['"'] + tail) == Some((v, tail)),
{
    let s = seq!['"'] + v + seq!['"'] + tail;
    assert(trim_start(s) == s) by {
        lemma_trim_start_of_ws_prefix(Seq::empty(), s);
        assert(Seq::<char>::empty() + s =~= s);
    }
    assert(s.len() > 0 && s[0] == '"');
    let t = s.subrange(1, s.len() as int);
    let rest = seq!['"'] + tail;
    assert(t =~= v + rest);
    lemma_first_char(v, rest, '"');
    assert(t.subrange(0, v.len() as int) =~= v);
    assert(t.subrange((v.len() + 1) as int, t.len() as int) =~= tail);
}

/// In `v` followed by a text starting with `c`, the first `c` comes right
/// after `v` when `v` holds none.
pub proof fn lemma_first_char(v: Seq<char>, rest: Seq<char>, c: char)
    requires
        forall|k: int| 0 <= k < v.len() ==> #[trigger] v[k] != c,
        rest.len() > 0,
        rest[0] == c,
    ensures
        find(v + rest, seq![c]) == Some(v.len() as int),
{
    let t = v + rest;
    let q = seq![c];
    assert(t.subrange(v.len() as int, (v.len() + 1) as int) =~= q);
    lemma_find_first(t, q, 0, v.len() as int);
    let k = find(t, q)->0;
    if k < v.len() {
        assert(t.subrange(k, k + 1)[0] == t[k]);
        assert(t[k] == v[k]);
    }
}

/// `#article("title", "date")` reads back its title and date, when neither
/// holds a `"`.
pub proof fn lemma_article_call_reads_back(title: Seq<char>, date: Seq<char>, tail: Seq<char>)
    requires
        forall|k: int| 0 <= k < title.len() ==> #[trigger] title[k] != '"',
        forall|k: int| 0 <= k < date.len() ==> #[trigger] date[k] != '"',
    ensures
        article_call("#article(\""@ + title + "\", \""@ + date + "\")"@ + tail) == Some(
            (title, date),
        ),
{
    reveal_strlit("#article(\"");
    reveal_strlit("\", \"");
    reveal_strlit("\")");
    reveal_strlit("#article(");
    let content = "#article(\""@ + title + "\", \""@ + date + "\")"@ + tail;
    let call = "#article("@;
    assert(content.subrange(0, 9) =~= call);
    lemma_find_first(content, call, 0, 0);
    assert(find(content, call) == Some(0int));
    let rest = content.subrange(9, content.len() as int);
    let r1 = seq![',', ' ', '"'] + date + seq!['"', ')'] + tail;
    assert(rest =~= seq!['"'] + title + seq!['"'] + r1);
    lemma_leading_quoted_reads_back(title, r1);
    assert(trim_start(r1) == r1) by {
        lemma_trim_start_of_ws_prefix(Seq::empty(), r1);
        assert(Seq::<char>::empty() + r1 =~= r1);
    }
    let x = r1.subrange(1, r1.len() as int);
    let y = seq!['"'] + date + seq!['"'] + (seq![')'] + tail);
    assert(x =~= seq![' '] + y);
    lemma_trim_start_of_ws_prefix(seq![' '], y);
    lemma_leading_quoted_reads_back(date, seq![')'] + tail);
}

/// The line `#let <key> = "<value>"` holds no line break when neither key
/// nor value does.
proof fn lemma_let_line_no_newline(key: Seq<char>, value: Seq<char>)
    requires
        forall|k: int| 0 <= k < key.len() ==> #[trigger] key[k] != '\n',
        forall|k: int| 0 <= k < value.len() ==> #[trigger] value[k] != '\n',
    ensures
        forall|k: int|
            0 <= k < (let_prefix(key) + value + seq!['"']).len() ==> #[trigger] (let_prefix(key)
                + value + seq!['"'])[k] != '\n',
{
    reveal_strlit("#let ");
    reveal_strlit(" = \"");
    let p = let_prefix(key);
    let line = p + value + seq!['"'];
    assert forall|k: int| 0 <= k < line.len() implies #[trigger] line[k] != '\n' by {
        if k < 5 {
            assert(line[k] == "#let "@[k]);
        } else if k < 5 + key.len() {
            assert(line[k] == key[k - 5]);
        } else if k < p.len() {
            assert(line[k] == " = \""@[k - 5 - key.len()]);
        } else if k < p.len() + value.len() {
            assert(line[k] == value[k - p.len()]);
        }
    }
}

/// A first line `#let <key> = "<value>"` reads back its value, when the key
/// holds no line break and the value neither a `"` nor a line break.
pub proof fn lemma_let_value_reads_back(key: Seq<char>, value: Seq<char>, tail: Seq<char>)
    requires
        forall|k: int| 0 <= k < key.len() ==> #[trigger] key[k] != '\n',
        forall|k: int| 0 <= k < value.len() ==> #[trigger] value[k] != '"' && value[k] != '\n',
    ensures
        let_value(let_prefix(key) + value + seq!['"', '\n'] + tail, key) == Some(value),
{
    reveal_strlit("#let ");
    reveal_strlit(" = \"");
    let p = let_prefix(key);
    let line = p + value + seq!['"'];
    let s = p + value + seq!['"', '\n'] + tail;
    assert(s =~= line + (seq!['\n'] + tail));
    lemma_let_line_no_newline(key, value);
    lemma_first_char(line, seq!['\n'] + tail, '\n');
    assert(line_end(s, 0) == line.len());
    assert(s.subrange(0, line.len() as int) =~= line);
    assert(line_at(s, 0) == line);
    assert(line.len() > 0 && line[0] == '#' && line.last() == '"');
    crate::text::lemma_trim_of_clean(line);
    assert(line.subrange(0, p.len() as int) =~= p);
    let rest = line.subrange(p.len() as int, line.len() as int);
    assert(rest =~= value + seq!['"']);
    lemma_first_char(value, seq!['"'], '"');
    assert(rest.subrange(0, value.len() as int) =~= value);
    assert(let_value_in_line(line_at(s, 0), key) == Some(value));
}

} // verus!
