//! Character-sequence toolkit shared by the rest of the library.
//!
//! Strings are modelled by their views, `Seq<char>`. The spec functions here
//! say what the usual `str` operations (`trim`, `find`, `rfind`, `replace`,
//! `starts_with`, `to_ascii_lowercase`, ...) compute; the exec functions
//! compute them on `Vec<char>` buffers and are proved against those specs.
use vstd::prelude::*;
use vstd::std_specs::iter::IteratorSpec;

verus! {

broadcast use vstd::string::group_string_axioms;

// ---------------------------------------------------------------------------
// Specifications
// ---------------------------------------------------------------------------

/// Unicode `White_Space` (what `char::is_whitespace` and `str::trim` use).
pub open spec fn is_ws(c: char) -> bool {
    ||| ('\u{9}' <= c && c <= '\u{d}')
    ||| c == ' '
    ||| c == '\u{85}'
    ||| c == '\u{a0}'
    ||| c == '\u{1680}'
    ||| ('\u{2000}' <= c && c <= '\u{200a}')
    ||| c == '\u{2028}'
    ||| c == '\u{2029}'
    ||| c == '\u{202f}'
    ||| c == '\u{205f}'
    ||| c == '\u{3000}'
}

/// Index of the first character at or after `i` that is not white space.
pub open spec fn ws_skip(s: Seq<char>, i: int) -> int
    decreases s.len() - i,
{
    if 0 <= i < s.len() && is_ws(s[i]) {
        ws_skip(s, i + 1)
    } else {
        i
    }
}

/// End of `s.subrange(0, j)` once its trailing white space is dropped.
pub open spec fn ws_back(s: Seq<char>, j: int) -> int
    decreases j,
{
    if 0 < j <= s.len() && is_ws(s[j - 1]) {
        ws_back(s, j - 1)
    } else {
        j
    }
}

/// `str::trim_start`.
pub open spec fn trim_start(s: Seq<char>) -> Seq<char> {
    s.subrange(ws_skip(s, 0), s.len() as int)
}

/// `str::trim_end`.
pub open spec fn trim_end(s: Seq<char>) -> Seq<char> {
    s.subrange(0, ws_back(s, s.len() as int))
}

/// `str::trim`.
pub open spec fn trim(s: Seq<char>) -> Seq<char> {
    trim_end(trim_start(s))
}

/// Index of the first character at or after `i` that differs from `c`.
pub open spec fn char_skip(s: Seq<char>, c: char, i: int) -> int
    decreases s.len() - i,
{
    if 0 <= i < s.len() && s[i] == c {
        char_skip(s, c, i + 1)
    } else {
        i
    }
}

/// `str::trim_start_matches` with a single character.
pub open spec fn trim_start_char(s: Seq<char>, c: char) -> Seq<char> {
    s.subrange(char_skip(s, c, 0), s.len() as int)
}

/// `pat` occurs in `s` at position `i`.
pub open spec fn occurs_at(s: Seq<char>, pat: Seq<char>, i: int) -> bool {
    0 <= i && i + pat.len() <= s.len() && s.subrange(i, i + pat.len()) == pat
}

/// First occurrence of `pat` in `s` at or after `i`.
pub open spec fn find_from(s: Seq<char>, pat: Seq<char>, i: int) -> Option<int>
    decreases s.len() - i,
{
    if i < 0 || i + pat.len() > s.len() {
        None
    } else if occurs_at(s, pat, i) || pat.len() == 0 {
        Some(i)
    } else {
        find_from(s, pat, i + 1)
    }
}

/// `str::find`: the first occurrence of `pat` in `s`.
pub open spec fn find(s: Seq<char>, pat: Seq<char>) -> Option<int> {
    find_from(s, pat, 0)
}

/// `str::contains`.
pub open spec fn contains(s: Seq<char>, pat: Seq<char>) -> bool {
    find(s, pat) is Some
}

/// Last occurrence of `pat` in `s` at or before `i`.
pub open spec fn rfind_from(s: Seq<char>, pat: Seq<char>, i: int) -> Option<int>
    decreases i + 1,
{
    if i < 0 {
        None
    } else if occurs_at(s, pat, i) {
        Some(i)
    } else {
        rfind_from(s, pat, i - 1)
    }
}

/// `str::rfind`: the last occurrence of `pat` in `s`.
pub open spec fn rfind(s: Seq<char>, pat: Seq<char>) -> Option<int> {
    rfind_from(s, pat, s.len() - pat.len())
}

/// `str::starts_with`.
pub open spec fn starts_with(s: Seq<char>, p: Seq<char>) -> bool {
    p.len() <= s.len() && s.subrange(0, p.len() as int) == p
}

/// `str::ends_with`.
pub open spec fn ends_with(s: Seq<char>, p: Seq<char>) -> bool {
    p.len() <= s.len() && s.subrange(s.len() - p.len(), s.len() as int) == p
}

/// `str::replace` from position `i` on: non-overlapping matches, left to right.
pub open spec fn replace_from(s: Seq<char>, pat: Seq<char>, rep: Seq<char>, i: int) -> Seq<char>
    decreases s.len() - i,
{
    if i < 0 || i >= s.len() {
        Seq::empty()
    } else if pat.len() > 0 && occurs_at(s, pat, i) {
        rep + replace_from(s, pat, rep, i + pat.len())
    } else {
        seq![s[i]] + replace_from(s, pat, rep, i + 1)
    }
}

/// `str::replace` (for a non-empty pattern).
pub open spec fn replace(s: Seq<char>, pat: Seq<char>, rep: Seq<char>) -> Seq<char> {
    replace_from(s, pat, rep, 0)
}

/// `char::to_ascii_lowercase`.
pub open spec fn ascii_lower(c: char) -> char {
    if 'A' <= c && c <= 'Z' {
        ((c as int) + 32) as char
    } else {
        c
    }
}

/// `str::to_ascii_lowercase`.
pub open spec fn lower(s: Seq<char>) -> Seq<char> {
    Seq::new(s.len(), |i: int| ascii_lower(s[i]))
}

/// The decimal digit for `d < 10`.
pub open spec fn digit(d: nat) -> char {
    (('0' as nat) + d) as char
}

/// Decimal text of a natural number, without leading zeros.
pub open spec fn decimal(n: nat) -> Seq<char>
    decreases n,
{
    if n < 10 {
        seq![digit(n)]
    } else {
        decimal(n / 10).push(digit(n % 10))
    }
}

/// Four decimal digits of `n < 10000`, zero padded.
pub open spec fn pad4(n: nat) -> Seq<char> {
    seq![digit(n / 1000), digit((n / 100) % 10), digit((n / 10) % 10), digit(n % 10)]
}

/// Two decimal digits of `n < 100`, zero padded.
pub open spec fn pad2(n: nat) -> Seq<char> {
    seq![digit(n / 10), digit(n % 10)]
}

/// End of the line that starts at `i`: the next `\n` at or after `i`, or the end.
pub open spec fn line_end(s: Seq<char>, i: int) -> int {
    match find_from(s, seq!['\n'], i) {
        Some(k) => k,
        None => s.len() as int,
    }
}

/// The line that starts at `i`, as `str::lines` yields it: without its `\n`,
/// and without a `\r` just before that `\n`.
pub open spec fn line_at(s: Seq<char>, i: int) -> Seq<char> {
    let e = line_end(s, i);
    let raw = s.subrange(i, e);
    if e < s.len() && raw.len() > 0 && raw.last() == '\r' {
        raw.drop_last()
    } else {
        raw
    }
}

// ---------------------------------------------------------------------------
// Facts about trimming
// ---------------------------------------------------------------------------

/// `ws_skip` stops at the end or at a character that is not white space.
pub proof fn lemma_ws_skip(s: Seq<char>, i: int)
    requires
        0 <= i <= s.len(),
    ensures
        i <= ws_skip(s, i) <= s.len(),
        ws_skip(s, i) == s.len() || !is_ws(s[ws_skip(s, i)]),
        forall|k: int| i <= k < ws_skip(s, i) ==> is_ws(#[trigger] s[k]),
    decreases s.len() - i,
{
    if i < s.len() && is_ws(s[i]) {
        lemma_ws_skip(s, i + 1);
    }
}

/// `ws_back` stops at the start or after a character that is not white space.
pub proof fn lemma_ws_back(s: Seq<char>, j: int)
    requires
        0 <= j <= s.len(),
    ensures
        0 <= ws_back(s, j) <= j,
        ws_back(s, j) == 0 || !is_ws(s[ws_back(s, j) - 1]),
        forall|k: int| ws_back(s, j) <= k < j ==> is_ws(#[trigger] s[k]),
    decreases j,
{
    if j > 0 && is_ws(s[j - 1]) {
        lemma_ws_back(s, j - 1);
    }
}

/// A text that neither starts nor ends with white space is its own trim.
pub proof fn lemma_trim_of_clean(u: Seq<char>)
    requires
        u.len() == 0 || (!is_ws(u[0]) && !is_ws(u.last())),
    ensures
        trim(u) == u,
        trim_start(u) == u,
        trim_end(u) == u,
{
    assert(ws_skip(u, 0) == 0);
    assert(u.subrange(0, u.len() as int) == u);
    assert(ws_back(u, u.len() as int) == u.len());
}

/// The trim of a text neither starts nor ends with white space.
pub proof fn lemma_trim_clean(s: Seq<char>)
    ensures
        trim(s).len() == 0 || (!is_ws(trim(s)[0]) && !is_ws(trim(s).last())),
{
    lemma_ws_skip(s, 0);
    let t = trim_start(s);
    lemma_ws_back(t, t.len() as int);
}

/// Trimming twice is trimming once.
pub proof fn lemma_trim_trimmed(s: Seq<char>)
    ensures
        trim(trim(s)) == trim(s),
{
    lemma_trim_clean(s);
    lemma_trim_of_clean(trim(s));
}

// ---------------------------------------------------------------------------
// Facts about searching
// ---------------------------------------------------------------------------

/// A match found from `i` lies in bounds, at or after `i`, and nothing
/// matches between `i` and it.
pub proof fn lemma_find_in_bounds(s: Seq<char>, pat: Seq<char>, i: int)
    ensures
        find_from(s, pat, i) matches Some(k) ==> {
            &&& 0 <= i <= k
            &&& k + pat.len() <= s.len()
            &&& occurs_at(s, pat, k)
            &&& forall|j: int| i <= j < k ==> !occurs_at(s, pat, j)
        },
        find_from(s, pat, i) is None && 0 <= i ==> forall|j: int|
            i <= j ==> !occurs_at(s, pat, j),
    decreases s.len() - i,
{
    if i < 0 || i + pat.len() > s.len() {
    } else if occurs_at(s, pat, i) || pat.len() == 0 {
        if pat.len() == 0 {
            assert(s.subrange(i, i + pat.len()) == pat);
        }
    } else {
        lemma_find_in_bounds(s, pat, i + 1);
    }
}

/// A match found backwards from `i` lies in bounds at or before `i`, and
/// nothing matches between it and `i`.
pub proof fn lemma_rfind_from_in_bounds(s: Seq<char>, pat: Seq<char>, i: int)
    ensures
        rfind_from(s, pat, i) matches Some(k) ==> {
            &&& 0 <= k <= i
            &&& k + pat.len() <= s.len()
            &&& occurs_at(s, pat, k)
            &&& forall|j: int| k < j <= i ==> !occurs_at(s, pat, j)
        },
        rfind_from(s, pat, i) is None ==> forall|j: int| j <= i ==> !occurs_at(s, pat, j),
    decreases i + 1,
{
    if i < 0 {
    } else if occurs_at(s, pat, i) {
    } else {
        lemma_rfind_from_in_bounds(s, pat, i - 1);
    }
}

/// The last match lies in bounds and no later position matches.
pub proof fn lemma_rfind_in_bounds(s: Seq<char>, pat: Seq<char>)
    ensures
        rfind(s, pat) matches Some(k) ==> {
            &&& 0 <= k
            &&& k + pat.len() <= s.len()
            &&& occurs_at(s, pat, k)
            &&& forall|j: int| k < j ==> !occurs_at(s, pat, j)
        },
        rfind(s, pat) is None ==> forall|j: int| !occurs_at(s, pat, j),
{
    lemma_rfind_from_in_bounds(s, pat, s.len() - pat.len());
}

/// The first match from `i` comes no later than any position where `pat` occurs.
pub proof fn lemma_find_first(s: Seq<char>, pat: Seq<char>, i: int, j: int)
    requires
        0 <= i <= j,
        occurs_at(s, pat, j),
    ensures
        find_from(s, pat, i) matches Some(k) && i <= k <= j && occurs_at(s, pat, k),
{
    lemma_find_in_bounds(s, pat, i);
    if find_from(s, pat, i) is None {
        assert(!occurs_at(s, pat, j));
    } else {
        let k = find_from(s, pat, i)->0;
        if k > j {
            assert(!occurs_at(s, pat, j));
        }
    }
}

/// A line ends at or after its start and within the text.
pub proof fn lemma_line_end(s: Seq<char>, i: int)
    requires
        0 <= i <= s.len(),
    ensures
        i <= line_end(s, i) <= s.len(),
        line_end(s, i) < s.len() ==> s[line_end(s, i)] == '\n',
        forall|k: int| i <= k < line_end(s, i) ==> s[k] != '\n',
{
    lemma_find_in_bounds(s, seq!['\n'], i);
    assert forall|k: int| i <= k < line_end(s, i) implies s[k] != '\n' by {
        if s[k] == '\n' {
            assert(s.subrange(k, k + 1) == seq!['\n']);
            assert(occurs_at(s, seq!['\n'], k));
        }
    }
    if line_end(s, i) < s.len() {
        let e = line_end(s, i);
        assert(s.subrange(e, e + 1)[0] == s[e]);
    }
}

/// Replacing a pattern that does not occur from `i` on copies the rest.
pub proof fn lemma_replace_from_absent(s: Seq<char>, pat: Seq<char>, rep: Seq<char>, i: int)
    requires
        0 <= i <= s.len(),
        forall|j: int| i <= j ==> !occurs_at(s, pat, j),
    ensures
        replace_from(s, pat, rep, i) == s.subrange(i, s.len() as int),
    decreases s.len() - i,
{
    if i < s.len() {
        lemma_replace_from_absent(s, pat, rep, i + 1);
        assert(seq![s[i]] + s.subrange(i + 1, s.len() as int) == s.subrange(i, s.len() as int));
    }
}

/// Replacing a pattern that does not occur leaves the text unchanged.
pub proof fn lemma_replace_absent(s: Seq<char>, pat: Seq<char>, rep: Seq<char>)
    requires
        !contains(s, pat),
    ensures
        replace(s, pat, rep) == s,
{
    lemma_find_in_bounds(s, pat, 0);
    lemma_replace_from_absent(s, pat, rep, 0);
    assert(s.subrange(0, s.len() as int) == s);
}

// ---------------------------------------------------------------------------
// Building blocks
// ---------------------------------------------------------------------------

/// The characters of a string slice, in order.
pub fn str_chars(s: &str) -> (v: Vec<char>)
    ensures
        v@ == s@,
{
    let mut v: Vec<char> = Vec::new();
    let mut it = s.chars();
    loop
        invariant
            it.obeys_prophetic_iter_laws(),
            v@ + it.remaining() == s@,
        decreases s@.len() - v@.len(),
    {
        match it.next() {
            Some(c) => {
                v.push(c);
            },
            None => {
                assert(v@ == s@);
                return v;
            },
        }
    }
}

/// `String::push`: claimed to leave the string's characters followed by `c`.
#[verifier::external_body]
pub fn push_char(out: &mut String, c: char)
    ensures
        final(out)@ == old(out)@.push(c),
{
    out.push(c);
}

/// Appends `v[from..to]` to `out`.
pub fn push_range(out: &mut String, v: &Vec<char>, from: usize, to: usize)
    requires
        from <= to <= v@.len(),
    ensures
        final(out)@ == old(out)@ + v@.subrange(from as int, to as int),
{
    let mut i = from;
    while i < to
        invariant
            from <= i <= to <= v@.len(),
            out@ == old(out)@ + v@.subrange(from as int, i as int),
        decreases to - i,
    {
        push_char(out, v[i]);
        i = i + 1;
        assert(v@.subrange(from as int, i as int) == v@.subrange(from as int, i - 1).push(v@[i - 1]));
    }
}

/// Appends all of `v` to `out`.
pub fn push_all(out: &mut String, v: &Vec<char>)
    ensures
        final(out)@ == old(out)@ + v@,
{
    push_range(out, v, 0, v.len());
    assert(v@.subrange(0, v@.len() as int) == v@);
}

/// Appends `src[from..to]` to the buffer `dst`.
pub fn push_vec_range(dst: &mut Vec<char>, src: &Vec<char>, from: usize, to: usize)
    requires
        from <= to <= src@.len(),
    ensures
        final(dst)@ == old(dst)@ + src@.subrange(from as int, to as int),
{
    let mut i = from;
    while i < to
        invariant
            from <= i <= to <= src@.len(),
            dst@ == old(dst)@ + src@.subrange(from as int, i as int),
        decreases to - i,
    {
        dst.push(src[i]);
        i = i + 1;
        assert(src@.subrange(from as int, i as int) == src@.subrange(from as int, i - 1).push(
            src@[i - 1],
        ));
    }
}

/// A `String` holding the characters of `v`.
pub fn string_of(v: &Vec<char>) -> (s: String)
    ensures
        s@ == v@,
{
    let mut s = String::new();
    push_all(&mut s, v);
    s
}

/// A `String` holding `v[from..to]`.
pub fn string_of_range(v: &Vec<char>, from: usize, to: usize) -> (s: String)
    requires
        from <= to <= v@.len(),
    ensures
        s@ == v@.subrange(from as int, to as int),
{
    let mut s = String::new();
    push_range(&mut s, v, from, to);
    s
}

/// A new buffer holding `v[from..to]`.
pub fn sub_vec(v: &Vec<char>, from: usize, to: usize) -> (r: Vec<char>)
    requires
        from <= to <= v@.len(),
    ensures
        r@ == v@.subrange(from as int, to as int),
{
    let mut r: Vec<char> = Vec::new();
    let mut i = from;
    while i < to
        invariant
            from <= i <= to <= v@.len(),
            r@ == v@.subrange(from as int, i as int),
        decreases to - i,
    {
        r.push(v[i]);
        i = i + 1;
        assert(v@.subrange(from as int, i as int) == v@.subrange(from as int, i - 1).push(v@[i - 1]));
    }
    r
}

/// Appends the decimal text of `n` (`{}` formatting of an unsigned integer).
pub fn push_decimal(out: &mut String, n: u32)
    ensures
        final(out)@ == old(out)@ + decimal(n as nat),
    decreases n,
{
    if n < 10 {
        let c = digit_char(n);
        push_char(out, c);
        assert(decimal(n as nat) == seq![c]);
    } else {
        push_decimal(out, n / 10);
        let c = digit_char(n % 10);
        push_char(out, c);
        assert(decimal(n as nat) == decimal((n / 10) as nat).push(c));
    }
}

/// The digit character for `d < 10`.
pub fn digit_char(d: u32) -> (c: char)
    requires
        d < 10,
    ensures
        c == digit(d as nat),
{
    let b: u8 = (48 + d) as u8;
    let c = b as char;
    assert(c == digit(d as nat));
    c
}

// ---------------------------------------------------------------------------
// Characters
// ---------------------------------------------------------------------------

/// `char::is_whitespace`.
pub fn is_ws_char(c: char) -> (b: bool)
    ensures
        b == is_ws(c),
{
    ('\u{9}' <= c && c <= '\u{d}') || c == ' ' || c == '\u{85}' || c == '\u{a0}' || c
        == '\u{1680}' || ('\u{2000}' <= c && c <= '\u{200a}') || c == '\u{2028}' || c
        == '\u{2029}' || c == '\u{202f}' || c == '\u{205f}' || c == '\u{3000}'
}

/// `char::to_ascii_lowercase`.
pub fn ascii_lower_char(c: char) -> (r: char)
    ensures
        r == ascii_lower(c),
{
    if 'A' <= c && c <= 'Z' {
        let b: u8 = c as u8;
        let r = (b + 32) as char;
        assert(r == ascii_lower(c));
        r
    } else {
        c
    }
}

// ---------------------------------------------------------------------------
// Trimming
// ---------------------------------------------------------------------------

/// `ws_skip` computed.
pub fn ws_skip_exec(v: &Vec<char>, i: usize) -> (r: usize)
    requires
        i <= v@.len(),
    ensures
        r == ws_skip(v@, i as int),
        i <= r <= v@.len(),
    decreases v@.len() - i,
{
    if i < v.len() && is_ws_char(v[i]) {
        ws_skip_exec(v, i + 1)
    } else {
        i
    }
}

/// `ws_back` computed.
pub fn ws_back_exec(v: &Vec<char>, j: usize) -> (r: usize)
    requires
        j <= v@.len(),
    ensures
        r == ws_back(v@, j as int),
        r <= j,
    decreases j,
{
    if j > 0 && is_ws_char(v[j - 1]) {
        ws_back_exec(v, j - 1)
    } else {
        j
    }
}

/// `str::trim_start` on a buffer.
pub fn trim_start_vec(v: &Vec<char>) -> (r: Vec<char>)
    ensures
        r@ == trim_start(v@),
{
    let a = ws_skip_exec(v, 0);
    sub_vec(v, a, v.len())
}

/// `str::trim_end` on a buffer.
pub fn trim_end_vec(v: &Vec<char>) -> (r: Vec<char>)
    ensures
        r@ == trim_end(v@),
{
    let b = ws_back_exec(v, v.len());
    sub_vec(v, 0, b)
}

/// `str::trim` on a buffer.
pub fn trim_vec(v: &Vec<char>) -> (r: Vec<char>)
    ensures
        r@ == trim(v@),
{
    let t = trim_start_vec(v);
    trim_end_vec(&t)
}

/// `str::trim` on a string slice.
pub fn trim_str(s: &str) -> (r: Vec<char>)
    ensures
        r@ == trim(s@),
{
    let v = str_chars(s);
    trim_vec(&v)
}

/// `char_skip` computed.
pub fn char_skip_exec(v: &Vec<char>, c: char, i: usize) -> (r: usize)
    requires
        i <= v@.len(),
    ensures
        r == char_skip(v@, c, i as int),
        i <= r <= v@.len(),
    decreases v@.len() - i,
{
    if i < v.len() && v[i] == c {
        char_skip_exec(v, c, i + 1)
    } else {
        i
    }
}

/// `str::trim_start_matches` with one character, on a buffer.
pub fn trim_start_char_vec(v: &Vec<char>, c: char) -> (r: Vec<char>)
    ensures
        r@ == trim_start_char(v@, c),
{
    let a = char_skip_exec(v, c, 0);
    sub_vec(v, a, v.len())
}

// ---------------------------------------------------------------------------
// Searching
// ---------------------------------------------------------------------------

/// Whether `pat` occurs in `v` at position `i`.
pub fn matches_at(v: &Vec<char>, pat: &Vec<char>, i: usize) -> (b: bool)
    ensures
        b == occurs_at(v@, pat@, i as int),
{
    if i > v.len() || pat.len() > v.len() - i {
        return false;
    }
    let mut k: usize = 0;
    while k < pat.len()
        invariant
            i + pat@.len() <= v.len(),
            k <= pat@.len(),
            forall|m: int| 0 <= m < k ==> v@[i + m] == pat@[m],
        decreases pat@.len() - k,
    {
        if v[i + k] != pat[k] {
            assert(v@.subrange(i as int, i + pat@.len())[k as int] != pat@[k as int]);
            return false;
        }
        k = k + 1;
    }
    assert(v@.subrange(i as int, i + pat@.len()) == pat@);
    true
}

/// `find_from` computed.
pub fn find_from_exec(v: &Vec<char>, pat: &Vec<char>, from: usize) -> (r: Option<usize>)
    ensures
        r matches Some(x) ==> find_from(v@, pat@, from as int) == Some(x as int),
        r is None ==> find_from(v@, pat@, from as int) is None,
{
    let mut i = from;
    loop
        invariant
            from <= i,
            find_from(v@, pat@, from as int) == find_from(v@, pat@, i as int),
        decreases v@.len() - i,
    {
        if i > v.len() || pat.len() > v.len() - i {
            return None;
        }
        if pat.len() == 0 || matches_at(v, pat, i) {
            return Some(i);
        }
        i = i + 1;
    }
}

/// `str::find` on buffers.
pub fn find_vec(v: &Vec<char>, pat: &Vec<char>) -> (r: Option<usize>)
    ensures
        r matches Some(x) ==> find(v@, pat@) == Some(x as int),
        r is None ==> find(v@, pat@) is None,
{
    find_from_exec(v, pat, 0)
}

/// `str::contains` on a buffer and a pattern given as a string slice.
pub fn contains_str(v: &Vec<char>, pat: &str) -> (b: bool)
    ensures
        b == contains(v@, pat@),
{
    let p = str_chars(pat);
    find_vec(v, &p).is_some()
}

/// `str::rfind` on buffers.
pub fn rfind_vec(v: &Vec<char>, pat: &Vec<char>) -> (r: Option<usize>)
    ensures
        r matches Some(x) ==> rfind(v@, pat@) == Some(x as int),
        r is None ==> rfind(v@, pat@) is None,
{
    if pat.len() > v.len() {
        assert(rfind_from(v@, pat@, v@.len() - pat@.len()) is None);
        return None;
    }
    let mut i: usize = v.len() - pat.len();
    loop
        invariant
            i + pat@.len() <= v@.len(),
            rfind(v@, pat@) == rfind_from(v@, pat@, i as int),
        decreases i,
    {
        if matches_at(v, pat, i) {
            return Some(i);
        }
        if i == 0 {
            assert(rfind_from(v@, pat@, -1) is None);
            return None;
        }
        i = i - 1;
    }
}

/// `str::starts_with` on a buffer.
pub fn starts_with_vec(v: &Vec<char>, p: &Vec<char>) -> (b: bool)
    ensures
        b == starts_with(v@, p@),
{
    matches_at(v, p, 0)
}

/// `str::starts_with` with a pattern given as a string slice.
pub fn starts_with_str(v: &Vec<char>, p: &str) -> (b: bool)
    ensures
        b == starts_with(v@, p@),
{
    let pv = str_chars(p);
    starts_with_vec(v, &pv)
}

/// Whether a buffer holds exactly the text `s`.
pub fn vec_is(v: &Vec<char>, s: &str) -> (b: bool)
    ensures
        b == (v@ == s@),
{
    let w = str_chars(s);
    if v.len() != w.len() {
        return false;
    }
    let mut i: usize = 0;
    while i < v.len()
        invariant
            i <= v@.len(),
            v@.len() == w@.len(),
            w@ == s@,
            forall|k: int| 0 <= k < i ==> v@[k] == w@[k],
        decreases v@.len() - i,
    {
        if v[i] != w[i] {
            assert(v@[i as int] != w@[i as int]);
            return false;
        }
        i = i + 1;
    }
    assert(v@ == w@);
    true
}

// ---------------------------------------------------------------------------
// Lines
// ---------------------------------------------------------------------------

/// `line_end` computed.
pub fn line_end_exec(v: &Vec<char>, i: usize) -> (e: usize)
    requires
        i <= v@.len(),
    ensures
        e == line_end(v@, i as int),
        i <= e <= v@.len(),
{
    proof {
        lemma_line_end(v@, i as int);
    }
    let mut nl: Vec<char> = Vec::new();
    nl.push('\n');
    assert(nl@ == seq!['\n']);
    let r = find_from_exec(v, &nl, i);
    assert(find_from(v@, nl@, i as int) == find_from(v@, seq!['\n'], i as int));
    match r {
        Some(k) => k,
        None => v.len(),
    }
}

/// `line_at` computed, given the line's end.
pub fn line_at_exec(v: &Vec<char>, i: usize, e: usize) -> (line: Vec<char>)
    requires
        i <= v@.len(),
        e == line_end(v@, i as int),
    ensures
        line@ == line_at(v@, i as int),
{
    proof {
        lemma_line_end(v@, i as int);
    }
    if e < v.len() && e > i && v[e - 1] == '\r' {
        let r = sub_vec(v, i, e - 1);
        assert(v@.subrange(i as int, e as int).drop_last() == r@);
        r
    } else {
        sub_vec(v, i, e)
    }
}

// ---------------------------------------------------------------------------
// Rewriting
// ---------------------------------------------------------------------------

/// `str::replace` on buffers (`pat` non-empty).
pub fn replace_vec(v: &Vec<char>, pat: &Vec<char>, rep: &Vec<char>) -> (r: Vec<char>)
    requires
        pat@.len() > 0,
    ensures
        r@ == replace(v@, pat@, rep@),
{
    let mut r: Vec<char> = Vec::new();
    let mut i: usize = 0;
    while i < v.len()
        invariant
            i <= v@.len(),
            pat@.len() > 0,
            r@ + replace_from(v@, pat@, rep@, i as int) == replace(v@, pat@, rep@),
        decreases v@.len() - i,
    {
        if matches_at(v, pat, i) {
            let mut k: usize = 0;
            let ghost r0 = r@;
            while k < rep.len()
                invariant
                    k <= rep@.len(),
                    r@ == r0 + rep@.subrange(0, k as int),
                decreases rep@.len() - k,
            {
                r.push(rep[k]);
                k = k + 1;
                assert(rep@.subrange(0, k as int) == rep@.subrange(0, k - 1).push(rep@[k - 1]));
            }
            assert(rep@.subrange(0, rep@.len() as int) == rep@);
            assert(r@ + replace_from(v@, pat@, rep@, (i + pat@.len()) as int) == r0 + (rep@
                + replace_from(v@, pat@, rep@, (i + pat@.len()) as int)));
            i = i + pat.len();
        } else {
            let ghost r0 = r@;
            r.push(v[i]);
            assert(r@ + replace_from(v@, pat@, rep@, (i + 1) as int) == r0 + (seq![v@[i as int]]
                + replace_from(v@, pat@, rep@, (i + 1) as int)));
            i = i + 1;
        }
    }
    assert(r@ + replace_from(v@, pat@, rep@, i as int) == r@);
    r
}

/// `str::replace` with the pattern and replacement given as string slices.
pub fn replace_str(v: &Vec<char>, pat: &str, rep: &Vec<char>) -> (r: Vec<char>)
    requires
        pat@.len() > 0,
    ensures
        r@ == replace(v@, pat@, rep@),
{
    let p = str_chars(pat);
    replace_vec(v, &p, rep)
}

/// `str::to_ascii_lowercase` on a buffer.
pub fn lower_vec(v: &Vec<char>) -> (r: Vec<char>)
    ensures
        r@ == lower(v@),
{
    let mut r: Vec<char> = Vec::new();
    let mut i: usize = 0;
    while i < v.len()
        invariant
            i <= v@.len(),
            r@.len() == i,
            forall|k: int| 0 <= k < i ==> r@[k] == ascii_lower(v@[k]),
        decreases v@.len() - i,
    {
        r.push(ascii_lower_char(v[i]));
        i = i + 1;
    }
    assert(r@ == lower(v@));
    r
}

} // verus!
