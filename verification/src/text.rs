//! Character-sequence helpers shared by the parser, the matcher and the checks.
use vstd::prelude::*;

verus! {

/// `p` occurs in `t` starting at index `i`.
pub open spec fn occurs_at(t: Seq<char>, p: Seq<char>, i: int) -> bool {
    0 <= i && i + p.len() <= t.len() && t.subrange(i, i + p.len()) == p
}

/// `p` occurs somewhere in `t` (the empty sequence occurs everywhere).
pub open spec fn seq_contains(t: Seq<char>, p: Seq<char>) -> bool {
    exists|i: int| occurs_at(t, p, i)
}

/// `i` is the leftmost index at which `p` occurs in `t`.
pub open spec fn is_first_occurrence(t: Seq<char>, p: Seq<char>, i: int) -> bool {
    occurs_at(t, p, i) && forall|j: int| 0 <= j < i ==> !occurs_at(t, p, j)
}

/// The leftmost index at which `p` occurs in `t`, if any.
pub open spec fn first_occurrence(t: Seq<char>, p: Seq<char>) -> Option<int> {
    if seq_contains(t, p) {
        Some(choose|i: int| is_first_occurrence(t, p, i))
    } else {
        None
    }
}

/// A leftmost occurrence is unique.
pub proof fn lemma_first_occurrence_unique(t: Seq<char>, p: Seq<char>, i: int)
    requires
        is_first_occurrence(t, p, i),
    ensures
        first_occurrence(t, p) == Some(i),
{
    assert(seq_contains(t, p));
    let k = choose|k: int| is_first_occurrence(t, p, k);
    assert(is_first_occurrence(t, p, k));
    if k < i {
        assert(!occurs_at(t, p, k));
    } else if i < k {
        assert(!occurs_at(t, p, i));
    }
}

proof fn lemma_minimal_occurrence(t: Seq<char>, p: Seq<char>, k: int)
    requires
        occurs_at(t, p, k),
    ensures
        exists|i: int| is_first_occurrence(t, p, i),
    decreases k,
{
    if exists|j: int| 0 <= j < k && occurs_at(t, p, j) {
        let j = choose|j: int| 0 <= j < k && occurs_at(t, p, j);
        lemma_minimal_occurrence(t, p, j);
    } else {
        assert(is_first_occurrence(t, p, k));
    }
}

/// When `p` occurs in `t`, `first_occurrence` names its leftmost occurrence.
pub proof fn lemma_first_occurrence_found(t: Seq<char>, p: Seq<char>)
    ensures
        first_occurrence(t, p) matches Some(i) ==> is_first_occurrence(t, p, i),
        first_occurrence(t, p) is None ==> !seq_contains(t, p),
{
    if seq_contains(t, p) {
        let k = choose|k: int| occurs_at(t, p, k);
        lemma_minimal_occurrence(t, p, k);
    }
}

/// Splits `s` at every occurrence of `sep`, as `str::split` with a `char` pattern does.
pub open spec fn split_on(s: Seq<char>, sep: char) -> Seq<Seq<char>>
    decreases s.len(),
{
    if s.len() == 0 {
        seq![Seq::<char>::empty()]
    } else {
        let r = split_on(s.drop_last(), sep);
        if s.last() == sep {
            r.push(Seq::<char>::empty())
        } else {
            r.update(r.len() - 1, r.last().push(s.last()))
        }
    }
}

pub proof fn lemma_split_on_nonempty(s: Seq<char>, sep: char)
    ensures
        split_on(s, sep).len() >= 1,
    decreases s.len(),
{
    if s.len() > 0 {
        lemma_split_on_nonempty(s.drop_last(), sep);
    }
}

pub proof fn lemma_split_on_len(s: Seq<char>, sep: char)
    ensures
        1 <= split_on(s, sep).len() <= s.len() + 1,
    decreases s.len(),
{
    if s.len() > 0 {
        lemma_split_on_len(s.drop_last(), sep);
    }
}

/// Text without the separator splits into itself alone.
pub proof fn lemma_split_on_none(s: Seq<char>, sep: char)
    requires
        !s.contains(sep),
    ensures
        split_on(s, sep) == seq![s],
    decreases s.len(),
{
    if s.len() > 0 {
        assert(!s.drop_last().contains(sep)) by {
            if s.drop_last().contains(sep) {
                let k = choose|k: int| 0 <= k < s.drop_last().len() && s.drop_last()[k] == sep;
                assert(s[k] == sep);
            }
        }
        lemma_split_on_none(s.drop_last(), sep);
        assert(s.last() != sep) by {
            assert(s[s.len() - 1] == s.last());
        }
        assert(s.drop_last().push(s.last()) =~= s);
    } else {
        assert(s =~= Seq::<char>::empty());
    }
}

/// Appending text without the separator extends the last piece.
pub proof fn lemma_split_on_extend(a: Seq<char>, b: Seq<char>, sep: char)
    requires
        !b.contains(sep),
    ensures
        split_on(a + b, sep) == split_on(a, sep).update(split_on(a, sep).len() - 1, split_on(a, sep).last() + b),
    decreases b.len(),
{
    lemma_split_on_nonempty(a, sep);
    if b.len() == 0 {
        assert(a + b =~= a);
        assert(split_on(a, sep).last() + b =~= split_on(a, sep).last());
        assert(split_on(a, sep).update(split_on(a, sep).len() - 1, split_on(a, sep).last()) =~= split_on(a, sep));
    } else {
        let b0 = b.drop_last();
        assert(!b0.contains(sep)) by {
            if b0.contains(sep) {
                let k = choose|k: int| 0 <= k < b0.len() && b0[k] == sep;
                assert(b[k] == sep);
            }
        }
        assert(b.last() != sep) by {
            assert(b[b.len() - 1] == b.last());
        }
        lemma_split_on_extend(a, b0, sep);
        assert((a + b).drop_last() =~= a + b0);
        assert((a + b).last() == b.last());
        let r = split_on(a, sep);
        assert((r.last() + b0).push(b.last()) =~= r.last() + b);
        assert(split_on(a + b, sep) =~= r.update(r.len() - 1, r.last() + b));
    }
}

/// Appending the separator starts a new, empty piece.
pub proof fn lemma_split_on_sep(a: Seq<char>, sep: char)
    ensures
        split_on(a.push(sep), sep) == split_on(a, sep).push(Seq::<char>::empty()),
{
    assert(a.push(sep).drop_last() =~= a);
}

/// There are no more lines than characters.
pub proof fn lemma_lines_len(s: Seq<char>)
    ensures
        lines_spec(s).len() <= s.len(),
{
    lemma_split_on_len(s, '\n');
    let parts = split_on(s, '\n');
    if parts.last().len() != 0 {
        if parts.len() == s.len() + 1 {
            lemma_split_full(s, '\n');
        }
    }
}

/// When there are as many pieces as characters plus one, every piece is empty.
proof fn lemma_split_full(s: Seq<char>, sep: char)
    requires
        split_on(s, sep).len() == s.len() + 1,
    ensures
        split_on(s, sep).last().len() == 0,
    decreases s.len(),
{
    if s.len() > 0 {
        lemma_split_on_len(s.drop_last(), sep);
        if s.last() != sep {
            assert(split_on(s, sep).len() == split_on(s.drop_last(), sep).len());
        }
    }
}

/// Whether `p` occurs in `t` at index `i`.
pub fn matches_at(t: &[char], p: &[char], i: usize) -> (r: bool)
    ensures
        r == occurs_at(t@, p@, i as int),
{
    if i > t.len() || p.len() > t.len() - i {
        return false;
    }
    let mut k: usize = 0;
    while k < p.len()
        invariant
            i + p.len() <= t.len(),
            k <= p.len(),
            forall|j: int| 0 <= j < k ==> t@[i + j] == p@[j],
        decreases p.len() - k,
    {
        if t[i + k] != p[k] {
            assert(t@.subrange(i as int, i + p.len())[k as int] != p@[k as int]);
            return false;
        }
        k = k + 1;
    }
    assert(t@.subrange(i as int, i + p.len()) =~= p@);
    true
}

/// The leftmost index at or after `start` at which `p` occurs in `t`,
/// counted from `start`.
pub fn find_from(t: &[char], start: usize, p: &[char]) -> (r: Option<usize>)
    requires
        start <= t.len(),
    ensures
        match r {
            Some(k) => first_occurrence(t@.subrange(start as int, t@.len() as int), p@) == Some(k as int),
            None => first_occurrence(t@.subrange(start as int, t@.len() as int), p@) is None,
        },
{
    let ghost u = t@.subrange(start as int, t@.len() as int);
    if p.len() == 0 {
        proof {
            assert(u.subrange(0, 0) =~= p@);
            lemma_first_occurrence_unique(u, p@, 0);
        }
        return Some(0);
    }
    if p.len() > t.len() - start {
        proof {
            assert forall|j: int| !occurs_at(u, p@, j) by {}
        }
        return None;
    }
    let mut i: usize = start;
    while i <= t.len() - p.len()
        invariant
            start <= i,
            0 < p.len() <= t.len() - start,
            u == t@.subrange(start as int, t@.len() as int),
            forall|j: int| 0 <= j < i - start ==> !occurs_at(u, p@, j),
        decreases t.len() + 1 - i,
    {
        let m = matches_at(t, p, i);
        proof {
            if m {
                assert(u.subrange(i - start, i - start + p@.len()) =~= t@.subrange(i as int, i + p@.len()));
            } else {
                if occurs_at(u, p@, i - start) {
                    assert(u.subrange(i - start, i - start + p@.len()) =~= t@.subrange(i as int, i + p@.len()));
                }
            }
        }
        if m {
            proof {
                lemma_first_occurrence_unique(u, p@, i - start);
            }
            return Some(i - start);
        }
        i = i + 1;
    }
    proof {
        assert forall|j: int| !occurs_at(u, p@, j) by {
            if 0 <= j && j < i - start {
            } else if j >= i - start {
                assert(j + p@.len() > u.len());
            }
        }
    }
    None
}

/// Whether `p` occurs anywhere in `t`.
pub fn contains_seq(t: &[char], p: &[char]) -> (r: bool)
    ensures
        r == seq_contains(t@, p@),
{
    let f = find_from(t, 0, p);
    proof {
        assert(t@.subrange(0, t@.len() as int) =~= t@);
    }
    f.is_some()
}

/// Length of the longest prefix of `s` whose characters all satisfy `p`.
pub open spec fn run_len(s: Seq<char>, p: spec_fn(char) -> bool) -> nat
    decreases s.len(),
{
    if s.len() == 0 || !p(s[0]) {
        0
    } else {
        1 + run_len(s.drop_first(), p)
    }
}

pub proof fn lemma_run_len_bounds(s: Seq<char>, p: spec_fn(char) -> bool)
    ensures
        run_len(s, p) <= s.len(),
        s.len() > 0 && p(s[0]) ==> run_len(s, p) >= 1,
        forall|i: int| 0 <= i < run_len(s, p) ==> #[trigger] p(s[i]),
        run_len(s, p) < s.len() ==> !p(s[run_len(s, p) as int]),
    decreases s.len(),
{
    if s.len() > 0 && p(s[0]) {
        lemma_run_len_bounds(s.drop_first(), p);
        assert forall|i: int| 0 <= i < run_len(s, p) implies #[trigger] p(s[i]) by {
            if i > 0 {
                assert(s[i] == s.drop_first()[i - 1]);
            }
        }
    }
}

/// Two character sequences are equal.
pub fn eq_chars(a: &[char], b: &[char]) -> (r: bool)
    ensures
        r == (a@ == b@),
{
    if a.len() != b.len() {
        return false;
    }
    let mut i: usize = 0;
    while i < a.len()
        invariant
            a@.len() == b@.len(),
            i <= a@.len(),
            forall|k: int| 0 <= k < i ==> a@[k] == b@[k],
        decreases a.len() - i,
    {
        if a[i] != b[i] {
            return false;
        }
        i = i + 1;
    }
    assert(a@ =~= b@);
    true
}

/// The characters `v` spell the string `lit`.
pub fn eq_lit(v: &[char], lit: &str) -> (r: bool)
    ensures
        r == (v@ == lit@),
{
    let l = chars_of(lit);
    eq_chars(v, l.as_slice())
}

/// What `str::to_lowercase` gives for a string: the Unicode lowercase mapping,
/// which takes pages of tables to state and depends on the characters alone.
pub uninterp spec fn lowercase_spec(s: Seq<char>) -> Seq<char>;

/// `c` is an ASCII letter.
pub open spec fn is_ascii_letter(c: char) -> bool {
    ('A' <= c && c <= 'Z') || ('a' <= c && c <= 'z')
}

/// The ASCII lowercase of an ASCII character.
pub open spec fn ascii_lower(c: char) -> char {
    if 'A' <= c && c <= 'Z' { ((c as u32) + 32) as char } else { c }
}

/// Calls `str::to_lowercase`; the result is `lowercase_spec` of the characters.
/// For ASCII text it is, as the documentation's mapping gives, the same text with
/// `A`..`Z` turned into `a`..`z`.
#[verifier::external_body]
pub(crate) fn to_lowercase(s: &str) -> (r: String)
    ensures
        r@ == lowercase_spec(s@),
        (forall|i: int| 0 <= i < s@.len() ==> (#[trigger] s@[i] as u32) < 128) ==> r@ == s@.map_values(
            |c: char| ascii_lower(c),
        ),
{
    s.to_lowercase()
}

/// What `char::is_alphanumeric` answers (the Unicode Alphabetic or Numeric property).
pub uninterp spec fn is_alphanumeric_spec(c: char) -> bool;

/// Calls `char::is_alphanumeric`; the result is `is_alphanumeric_spec(c)`. On ASCII,
/// as the documentation says, letters and digits are alphanumeric and nothing else is.
#[verifier::external_body]
pub(crate) fn is_alphanumeric(c: char) -> (r: bool)
    ensures
        r == is_alphanumeric_spec(c),
        (c as u32) < 128 ==> r == (is_ascii_letter(c) || ('0' <= c && c <= '9')),
{
    c.is_alphanumeric()
}

/// The characters `s[a..b]`.
pub fn copy_range(s: &[char], a: usize, b: usize) -> (v: Vec<char>)
    requires
        a <= b <= s.len(),
    ensures
        v@ == s@.subrange(a as int, b as int),
{
    let mut v: Vec<char> = Vec::new();
    let mut i: usize = a;
    while i < b
        invariant
            a <= i <= b <= s.len(),
            v@ == s@.subrange(a as int, i as int),
        decreases b - i,
    {
        v.push(s[i]);
        i = i + 1;
        assert(v@ =~= s@.subrange(a as int, i as int));
    }
    v
}

/// `lit` is a prefix of `t[i..]`.
pub fn starts_with_at(t: &[char], i: usize, lit: &str) -> (r: bool)
    requires
        i <= t.len(),
    ensures
        r == lit@.is_prefix_of(t@.skip(i as int)),
{
    let l = chars_of(lit);
    if l.len() > t.len() - i {
        return false;
    }
    let mut k: usize = 0;
    while k < l.len()
        invariant
            l@ == lit@,
            i + l@.len() <= t.len(),
            k <= l@.len(),
            forall|j: int| 0 <= j < k ==> l@[j] == t@.skip(i as int)[j],
        decreases l.len() - k,
    {
        if t[i + k] != l[k] {
            assert(t@.skip(i as int)[k as int] == t@[i + k]);
            return false;
        }
        k = k + 1;
    }
    true
}

/// The characters of `s`, in order.
pub fn chars_of(s: &str) -> (r: Vec<char>)
    ensures
        r@ == s@,
{
    broadcast use vstd::string::axiom_spec_iter;
    let mut v: Vec<char> = Vec::new();
    for c in it: s.chars()
        invariant
            v@ == it.seq().take(it.index() as int),
            it.seq() == s@,
    {
        v.push(c);
        assert(v@ =~= it.seq().take(it.index() + 1));
    }
    assert(v@ =~= s@);
    v
}

/// A `String` holding exactly the characters of `v`.
#[verifier::external_body]
pub(crate) fn string_of(v: &[char]) -> (r: String)
    ensures
        r@ == v@,
{
    String::from_iter(v.iter())
}

/// The decimal digit character for `d` (`d < 10`).
pub open spec fn digit_char(d: int) -> char {
    if d == 0 { '0' }
    else if d == 1 { '1' }
    else if d == 2 { '2' }
    else if d == 3 { '3' }
    else if d == 4 { '4' }
    else if d == 5 { '5' }
    else if d == 6 { '6' }
    else if d == 7 { '7' }
    else if d == 8 { '8' }
    else { '9' }
}

/// The decimal notation of `n`, without leading zeros.
pub open spec fn decimal(n: nat) -> Seq<char>
    decreases n,
{
    if n < 10 {
        seq![digit_char(n as int)]
    } else {
        decimal(n / 10).push(digit_char((n % 10) as int))
    }
}

/// Appends the characters of `lit` to `v`.
pub fn push_lit(v: &mut Vec<char>, lit: &str)
    ensures
        final(v)@ == old(v)@ + lit@,
{
    let l = chars_of(lit);
    let mut i: usize = 0;
    while i < l.len()
        invariant
            i <= l@.len(),
            v@ == old(v)@ + l@.take(i as int),
        decreases l.len() - i,
    {
        v.push(l[i]);
        i = i + 1;
        assert(v@ =~= old(v)@ + l@.take(i as int));
    }
    assert(l@.take(l@.len() as int) =~= l@);
}

/// Appends the characters of `w` to `v`.
pub fn push_chars(v: &mut Vec<char>, w: &[char])
    ensures
        final(v)@ == old(v)@ + w@,
{
    let mut i: usize = 0;
    while i < w.len()
        invariant
            i <= w@.len(),
            v@ == old(v)@ + w@.take(i as int),
        decreases w.len() - i,
    {
        v.push(w[i]);
        i = i + 1;
        assert(v@ =~= old(v)@ + w@.take(i as int));
    }
    assert(w@.take(w@.len() as int) =~= w@);
}

/// Appends the decimal notation of `n` to `v`.
pub fn push_decimal(v: &mut Vec<char>, n: u64)
    ensures
        final(v)@ == old(v)@ + decimal(n as nat),
    decreases n,
{
    if n >= 10 {
        push_decimal(v, n / 10);
    }
    let d = n % 10;
    let c = if d == 0 { '0' } else if d == 1 { '1' } else if d == 2 { '2' } else if d == 3 { '3' }
        else if d == 4 { '4' } else if d == 5 { '5' } else if d == 6 { '6' } else if d == 7 { '7' }
        else if d == 8 { '8' } else { '9' };
    v.push(c);
    proof {
        if n < 10 {
            assert(old(v)@.push(c) =~= old(v)@ + seq![c]);
        } else {
            assert(decimal(n as nat) == decimal((n / 10) as nat).push(c));
            assert((old(v)@ + decimal((n / 10) as nat)).push(c) =~= old(v)@ + decimal((n / 10) as nat).push(c));
        }
    }
}

/// What `char::is_whitespace` answers: the Unicode White_Space property, which
/// holds of exactly these 25 code points.
pub open spec fn is_whitespace_spec(c: char) -> bool {
    ('\u{9}' <= c && c <= '\u{d}') || c == ' ' || c == '\u{85}' || c == '\u{a0}' || c == '\u{1680}'
        || ('\u{2000}' <= c && c <= '\u{200a}') || c == '\u{2028}' || c == '\u{2029}' || c == '\u{202f}'
        || c == '\u{205f}' || c == '\u{3000}'
}

/// Whether `c` is white space, as `char::is_whitespace` answers.
pub fn is_whitespace(c: char) -> (r: bool)
    ensures
        r == is_whitespace_spec(c),
{
    ('\u{9}' <= c && c <= '\u{d}') || c == ' ' || c == '\u{85}' || c == '\u{a0}' || c == '\u{1680}'
        || ('\u{2000}' <= c && c <= '\u{200a}') || c == '\u{2028}' || c == '\u{2029}' || c == '\u{202f}'
        || c == '\u{205f}' || c == '\u{3000}'
}

/// What `char::is_alphabetic` answers (the Unicode Alphabetic property).
pub uninterp spec fn is_alphabetic_spec(c: char) -> bool;

/// Calls `char::is_alphabetic`; the result is `is_alphabetic_spec(c)`. On ASCII,
/// as the documentation says, exactly the letters are alphabetic.
#[verifier::external_body]
pub(crate) fn is_alphabetic(c: char) -> (r: bool)
    ensures
        r == is_alphabetic_spec(c),
        (c as u32) < 128 ==> r == is_ascii_letter(c),
{
    c.is_alphabetic()
}

/// What `String::from_utf8_lossy` gives for bytes: the UTF-8 decoding, with each
/// invalid sequence replaced by U+FFFD.
pub uninterp spec fn utf8_lossy_spec(b: Seq<u8>) -> Seq<char>;

/// Calls `String::from_utf8_lossy`; the result is `utf8_lossy_spec` of the bytes.
#[verifier::external_body]
pub(crate) fn decode_lossy(b: &[u8]) -> (r: String)
    ensures
        r@ == utf8_lossy_spec(b@),
{
    String::from_utf8_lossy(b).into_owned()
}

/// Number of leading characters of `s` that are white space.
pub open spec fn lead_ws(s: Seq<char>) -> nat {
    run_len(s, |c: char| is_whitespace_spec(c))
}

/// Number of trailing characters of `s` that are white space.
pub open spec fn trail_ws(s: Seq<char>) -> nat
    decreases s.len(),
{
    if s.len() == 0 || !is_whitespace_spec(s.last()) {
        0
    } else {
        1 + trail_ws(s.drop_last())
    }
}

/// `s` without its leading and trailing white space, as `str::trim` gives it.
pub open spec fn trim_spec(s: Seq<char>) -> Seq<char> {
    let a = lead_ws(s) as int;
    if a == s.len() {
        Seq::<char>::empty()
    } else {
        s.subrange(a, s.len() - trail_ws(s) as int)
    }
}

/// Bounds of `trim_spec(s[a..b])` within `s`.
pub fn trim_bounds(s: &[char], a: usize, b: usize) -> (r: (usize, usize))
    requires
        a <= b <= s.len(),
    ensures
        a <= r.0 <= r.1 <= b,
        s@.subrange(r.0 as int, r.1 as int) == trim_spec(s@.subrange(a as int, b as int)),
{
    let ghost u = s@.subrange(a as int, b as int);
    let mut i: usize = a;
    while i < b && is_whitespace(s[i])
        invariant
            a <= i <= b <= s.len(),
            u == s@.subrange(a as int, b as int),
            lead_ws(u) == (i - a) + lead_ws(s@.subrange(i as int, b as int)),
        decreases b - i,
    {
        assert(s@.subrange(i as int, b as int).drop_first() =~= s@.subrange(i + 1, b as int));
        i = i + 1;
    }
    if i == b {
        assert(s@.subrange(i as int, b as int).len() == 0);
        assert(s@.subrange(b as int, b as int) =~= Seq::<char>::empty());
        return (b, b);
    }
    assert(lead_ws(s@.subrange(i as int, b as int)) == 0);
    let mut j: usize = b;
    assert(u.subrange(0, (j - a) as int) =~= u);
    while j > i && is_whitespace(s[j - 1])
        invariant
            a <= i < b,
            i < j <= b <= s.len(),
            u == s@.subrange(a as int, b as int),
            !is_whitespace_spec(s@[i as int]),
            trail_ws(u) == (b - j) + trail_ws(u.subrange(0, (j - a) as int)),
        decreases j - i,
    {
        assert(u.subrange(0, (j - a) as int).drop_last() =~= u.subrange(0, (j - 1 - a) as int));
        j = j - 1;
    }
    proof {
        let w = u.subrange(0, (j - a) as int);
        assert(w.last() == s@[j - 1]);
        assert(trail_ws(w) == 0);
        assert(s@.subrange(i as int, j as int) =~= u.subrange((i - a) as int, u.len() - trail_ws(u) as int));
    }
    (i, j)
}

/// `p` without one trailing carriage return.
pub open spec fn strip_cr(p: Seq<char>) -> Seq<char> {
    if p.len() > 0 && p.last() == '\r' { p.drop_last() } else { p }
}

/// The lines of `s` as `str::lines` gives them: split at `\n`, a `\r` right before
/// a `\n` dropped, and no final empty line after a last `\n`.
pub open spec fn lines_spec(s: Seq<char>) -> Seq<Seq<char>> {
    let parts = split_on(s, '\n');
    let n = if parts.last().len() == 0 { parts.len() - 1 } else { parts.len() as int };
    Seq::new(n as nat, |k: int| if k < parts.len() - 1 { strip_cr(parts[k]) } else { parts[k] })
}

/// A character missing from the text is missing from every piece of it.
pub proof fn lemma_split_on_avoids(s: Seq<char>, sep: char, c: char)
    requires
        !s.contains(c),
    ensures
        forall|k: int| 0 <= k < split_on(s, sep).len() ==> !(#[trigger] split_on(s, sep)[k]).contains(c),
    decreases s.len(),
{
    if s.len() > 0 {
        let d = s.drop_last();
        assert(!d.contains(c)) by {
            if d.contains(c) {
                let j = choose|j: int| 0 <= j < d.len() && d[j] == c;
                assert(s[j] == c);
            }
        }
        lemma_split_on_avoids(d, sep, c);
        lemma_split_on_nonempty(d, sep);
        assert(s.last() != c) by {
            assert(s[s.len() - 1] == s.last());
        }
        let r = split_on(d, sep);
        let w = r.last().push(s.last());
        assert(!w.contains(c)) by {
            if w.contains(c) {
                let j = choose|j: int| 0 <= j < w.len() && w[j] == c;
                if j < r.last().len() {
                    assert(r[r.len() - 1][j] == c);
                }
            }
        }
    }
}

/// A character missing from the text is missing from every line of it.
pub proof fn lemma_lines_avoid(s: Seq<char>, c: char)
    requires
        !s.contains(c),
    ensures
        forall|k: int| 0 <= k < lines_spec(s).len() ==> !(#[trigger] lines_spec(s)[k]).contains(c),
{
    lemma_split_on_avoids(s, '\n', c);
    lemma_split_on_nonempty(s, '\n');
    let parts = split_on(s, '\n');
    assert forall|k: int| 0 <= k < lines_spec(s).len() implies !(#[trigger] lines_spec(s)[k]).contains(c) by {
        let p = parts[k];
        assert(!p.contains(c));
        if lines_spec(s)[k].contains(c) {
            let j = choose|j: int| 0 <= j < lines_spec(s)[k].len() && lines_spec(s)[k][j] == c;
            if k < parts.len() - 1 && p.len() > 0 && p.last() == '\r' {
                assert(p.drop_last()[j] == p[j]);
            }
            assert(p[j] == c);
        }
    }
}

/// Ranges of `t` holding the pieces of `split_on(t, sep)`.
pub fn split_ranges(t: &[char], sep: char) -> (r: Vec<(usize, usize)>)
    ensures
        r@.len() == split_on(t@, sep).len(),
        r@.len() >= 1,
        forall|k: int| 0 <= k < r@.len() ==> #[trigger] r@[k].0 <= r@[k].1 <= t@.len()
            && t@.subrange(r@[k].0 as int, r@[k].1 as int) == split_on(t@, sep)[k],
        forall|k: int| 0 <= k < r@.len() - 1 ==> #[trigger] r@[k].1 < t@.len() && t@[r@[k].1 as int] == sep,
{
    let mut r: Vec<(usize, usize)> = Vec::new();
    r.push((0, 0));
    let mut i: usize = 0;
    proof {
        assert(t@.take(0) =~= Seq::<char>::empty());
        assert(t@.subrange(0, 0) =~= Seq::<char>::empty());
    }
    while i < t.len()
        invariant
            i <= t@.len(),
            r@.len() == split_on(t@.take(i as int), sep).len(),
            r@.len() >= 1,
            r@[r@.len() - 1].1 == i,
            forall|k: int| 0 <= k < r@.len() ==> #[trigger] r@[k].0 <= r@[k].1 <= i
                && t@.subrange(r@[k].0 as int, r@[k].1 as int) == split_on(t@.take(i as int), sep)[k],
            forall|k: int| 0 <= k < r@.len() - 1 ==> #[trigger] r@[k].1 < i && t@[r@[k].1 as int] == sep,
        decreases t.len() - i,
    {
        let ghost before = t@.take(i as int);
        let ghost old_r = r@;
        assert(t@.take(i + 1).drop_last() =~= before);
        assert(t@.take(i + 1).last() == t@[i as int]);
        if t[i] == sep {
            r.push((i + 1, i + 1));
            proof {
                assert(t@.subrange(i + 1, i + 1) =~= Seq::<char>::empty());
                assert forall|k: int| 0 <= k < r@.len() implies #[trigger] r@[k].0 <= r@[k].1 <= i + 1
                    && t@.subrange(r@[k].0 as int, r@[k].1 as int) == split_on(t@.take(i + 1), sep)[k] by {
                    if k < old_r.len() {
                        assert(r@[k] == old_r[k]);
                    }
                }
            }
        } else {
            let last = r.len() - 1;
            let (a, _) = r[last];
            r.set(last, (a, i + 1));
            proof {
                assert(t@.subrange(a as int, i + 1) =~= t@.subrange(a as int, i as int).push(t@[i as int]));
                assert forall|k: int| 0 <= k < r@.len() implies #[trigger] r@[k].0 <= r@[k].1 <= i + 1
                    && t@.subrange(r@[k].0 as int, r@[k].1 as int) == split_on(t@.take(i + 1), sep)[k] by {
                    if k < last {
                        assert(r@[k] == old_r[k]);
                    }
                }
            }
        }
        i = i + 1;
    }
    assert(t@.take(t@.len() as int) =~= t@);
    r
}

/// `r[k]` is a range of `t` holding `pieces[k]`, for every `k`.
pub open spec fn ranges_match(t: Seq<char>, r: Seq<(usize, usize)>, pieces: Seq<Seq<char>>) -> bool {
    &&& r.len() == pieces.len()
    &&& forall|k: int| 0 <= k < r.len() ==> #[trigger] r[k].0 <= r[k].1 <= t.len()
        && t.subrange(r[k].0 as int, r[k].1 as int) == pieces[k]
}

/// Ranges of `t` holding its lines, as `lines_spec` gives them.
pub fn line_ranges(t: &[char]) -> (r: Vec<(usize, usize)>)
    ensures
        ranges_match(t@, r@, lines_spec(t@)),
{
    let parts = split_ranges(t, '\n');
    let ghost sp = split_on(t@, '\n');
    let (la, lb) = parts[parts.len() - 1];
    let n = if lb == la { parts.len() - 1 } else { parts.len() };
    let mut r: Vec<(usize, usize)> = Vec::new();
    let mut k: usize = 0;
    while k < n
        invariant
            parts@.len() == sp.len(),
            sp == split_on(t@, '\n'),
            n <= parts@.len(),
            n == lines_spec(t@).len(),
            forall|j: int| 0 <= j < parts@.len() ==> #[trigger] parts@[j].0 <= parts@[j].1 <= t@.len()
                && t@.subrange(parts@[j].0 as int, parts@[j].1 as int) == sp[j],
            k <= n,
            r@.len() == k,
            ranges_match(t@, r@, lines_spec(t@).take(k as int)),
        decreases n - k,
    {
        let (a, b) = parts[k];
        let ghost piece = sp[k as int];
        let ghost line = lines_spec(t@)[k as int];
        assert(t@.subrange(a as int, b as int) == piece);
        assert(line == if k < sp.len() - 1 { strip_cr(piece) } else { piece });
        if k + 1 < parts.len() && b > a && t[b - 1] == '\r' {
            assert(piece.last() == t@[b - 1]);
            assert(t@.subrange(a as int, b - 1) =~= piece.drop_last());
            r.push((a, b - 1));
        } else {
            proof {
                if k + 1 < parts.len() && b > a {
                    assert(piece.last() == t@[b - 1]);
                }
            }
            r.push((a, b));
        }
        assert(t@.subrange(r@[k as int].0 as int, r@[k as int].1 as int) == line);
        k = k + 1;
        assert(lines_spec(t@).take(k as int) =~= lines_spec(t@).take(k - 1).push(line));
    }
    assert(lines_spec(t@).take(n as int) =~= lines_spec(t@));
    r
}

/// Byte length of the UTF-8 encoding of `c`.
pub open spec fn utf8_width(c: char) -> nat {
    if (c as u32) < 0x80 { 1 } else if (c as u32) < 0x800 { 2 } else if (c as u32) < 0x10000 { 3 } else { 4 }
}

/// Byte length of the UTF-8 encoding of `s`.
pub open spec fn utf8_len(s: Seq<char>) -> nat
    decreases s.len(),
{
    if s.len() == 0 { 0 } else { utf8_len(s.drop_last()) + utf8_width(s.last()) }
}

/// Byte length of the UTF-8 encoding of `t[a..b]`.
pub fn utf8_len_of(t: &[char], a: usize, b: usize) -> (r: u64)
    requires
        a <= b <= t.len(),
        b - a <= u32::MAX,
    ensures
        r == utf8_len(t@.subrange(a as int, b as int)),
        r <= 4 * (b - a),
{
    let mut n: u64 = 0;
    let mut i: usize = a;
    assert(t@.subrange(a as int, a as int) =~= Seq::<char>::empty());
    while i < b
        invariant
            a <= i <= b <= t.len(),
            b - a <= u32::MAX,
            n == utf8_len(t@.subrange(a as int, i as int)),
            n <= 4 * (i - a),
        decreases b - i,
    {
        let c = t[i];
        let w: u64 = if (c as u32) < 0x80 { 1 } else if (c as u32) < 0x800 { 2 } else if (c as u32) < 0x10000 { 3 } else { 4 };
        assert(t@.subrange(a as int, i + 1).drop_last() =~= t@.subrange(a as int, i as int));
        n = n + w;
        i = i + 1;
    }
    n
}

/// End of the white space that starts `t[a..b]`.
pub fn skip_ws(t: &[char], a: usize, b: usize) -> (j: usize)
    requires
        a <= b <= t.len(),
    ensures
        a <= j <= b,
        j - a == lead_ws(t@.subrange(a as int, b as int)),
{
    let mut i: usize = a;
    while i < b && is_whitespace(t[i])
        invariant
            a <= i <= b <= t.len(),
            lead_ws(t@.subrange(a as int, b as int)) == (i - a) + lead_ws(t@.subrange(i as int, b as int)),
        decreases b - i,
    {
        assert(t@.subrange(i as int, b as int).drop_first() =~= t@.subrange(i + 1, b as int));
        i = i + 1;
    }
    i
}

/// Whether `c` occurs in `t[a..b]`.
pub fn range_has(t: &[char], a: usize, b: usize, c: char) -> (r: bool)
    requires
        a <= b <= t.len(),
    ensures
        r == t@.subrange(a as int, b as int).contains(c),
{
    let ghost u = t@.subrange(a as int, b as int);
    let mut i: usize = a;
    while i < b
        invariant
            a <= i <= b <= t.len(),
            u == t@.subrange(a as int, b as int),
            forall|k: int| 0 <= k < i - a ==> u[k] != c,
        decreases b - i,
    {
        if t[i] == c {
            assert(u[i - a] == c);
            return true;
        }
        i = i + 1;
    }
    false
}

} // verus!
