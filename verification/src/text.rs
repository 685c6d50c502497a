//! Character-level helpers: moving between `String` and `Vec<char>`, Unicode
//! character classes, the order in which strings sort, substring search and
//! whitespace trimming.
use vstd::prelude::*;

verus! {

// ---------------------------------------------------------------------------
// Strings as sequences of characters
// ---------------------------------------------------------------------------

/// Appends one character through `String::push`, which std documents as
/// "Appends the given char to the end of this String": the view grows by
/// exactly that character.
#[verifier::external_body]
pub(crate) fn push_char(s: &mut String, c: char)
    ensures
        final(s)@ == old(s)@.push(c),
{
    s.push(c);
}

/// The characters of `s`, in order.
pub fn chars_of(s: &str) -> (r: Vec<char>)
    ensures
        r@ == s@,
{
    let mut r: Vec<char> = Vec::new();
    for c in it: s.chars()
        invariant
            r@ == it.seq().take(it.index() as int),
            it.seq() == s@,
    {
        r.push(c);
    }
    r
}

/// The string made of the characters of `v`, in order.
pub fn string_of(v: &Vec<char>) -> (r: String)
    ensures
        r@ == v@,
{
    let mut r = String::new();
    let mut i: usize = 0;
    while i < v.len()
        invariant
            i <= v.len(),
            r@ == v@.take(i as int),
        decreases v.len() - i,
    {
        push_char(&mut r, v[i]);
        assert(v@.take(i as int).push(v@[i as int]) == v@.take(i + 1));
        i = i + 1;
    }
    assert(v@.take(v.len() as int) == v@);
    r
}

// ---------------------------------------------------------------------------
// Unicode character classes
// ---------------------------------------------------------------------------

/// Whether `char::is_numeric` holds of `c` (a Unicode general category for numbers).
pub uninterp spec fn char_is_numeric(c: char) -> bool;

/// Whether `char::is_alphabetic` holds of `c` (the Unicode `Alphabetic` property).
pub uninterp spec fn char_is_alphabetic(c: char) -> bool;

/// Whether `char::is_whitespace` holds of `c` (the Unicode `White_Space` property).
pub uninterp spec fn char_is_whitespace(c: char) -> bool;

/// `char::is_numeric`. Its result is a function of the character alone, named
/// `char_is_numeric`; the Unicode tables behind it are not written out.
#[verifier::external_body]
pub(crate) fn is_numeric(c: char) -> (r: bool)
    ensures
        r == char_is_numeric(c),
{
    c.is_numeric()
}

/// `char::is_alphabetic`. Its result is a function of the character alone,
/// named `char_is_alphabetic`; the Unicode tables behind it are not written out.
#[verifier::external_body]
pub(crate) fn is_alphabetic(c: char) -> (r: bool)
    ensures
        r == char_is_alphabetic(c),
{
    c.is_alphabetic()
}

/// `char::is_whitespace`. Its result is a function of the character alone,
/// named `char_is_whitespace`; the Unicode tables behind it are not written out.
#[verifier::external_body]
pub(crate) fn is_whitespace(c: char) -> (r: bool)
    ensures
        r == char_is_whitespace(c),
{
    c.is_whitespace()
}

// ---------------------------------------------------------------------------
// Trimming
// ---------------------------------------------------------------------------

/// `s` without its leading whitespace.
pub open spec fn trim_start_spec(s: Seq<char>) -> Seq<char>
    decreases s.len(),
{
    if s.len() > 0 && char_is_whitespace(s[0]) {
        trim_start_spec(s.drop_first())
    } else {
        s
    }
}

/// `s` without its trailing whitespace.
pub open spec fn trim_end_spec(s: Seq<char>) -> Seq<char>
    decreases s.len(),
{
    if s.len() > 0 && char_is_whitespace(s.last()) {
        trim_end_spec(s.drop_last())
    } else {
        s
    }
}

/// `s` without leading and trailing whitespace, as `str::trim` gives it.
pub open spec fn trim_spec(s: Seq<char>) -> Seq<char> {
    trim_end_spec(trim_start_spec(s))
}

/// Every character of `w` is whitespace.
pub open spec fn all_whitespace(w: Seq<char>) -> bool {
    forall|i: int| 0 <= i < w.len() ==> char_is_whitespace(#[trigger] w[i])
}

proof fn lemma_trim_start_drops(w: Seq<char>, x: Seq<char>)
    requires
        all_whitespace(w),
    ensures
        trim_start_spec(w + x) == trim_start_spec(x),
    decreases w.len(),
{
    if w.len() > 0 {
        assert((w + x)[0] == w[0]);
        assert((w + x).drop_first() == w.drop_first() + x);
        assert(all_whitespace(w.drop_first())) by {
            assert forall|i: int| 0 <= i < w.drop_first().len() implies char_is_whitespace(
                #[trigger] w.drop_first()[i],
            ) by {
                assert(w.drop_first()[i] == w[i + 1]);
            }
        }
        lemma_trim_start_drops(w.drop_first(), x);
    } else {
        assert(w + x == x);
    }
}

proof fn lemma_trim_end_drops(x: Seq<char>, w: Seq<char>)
    requires
        all_whitespace(w),
    ensures
        trim_end_spec(x + w) == trim_end_spec(x),
    decreases w.len(),
{
    if w.len() > 0 {
        assert((x + w).last() == w.last());
        assert((x + w).drop_last() == x + w.drop_last());
        assert(all_whitespace(w.drop_last())) by {
            assert forall|i: int| 0 <= i < w.drop_last().len() implies char_is_whitespace(
                #[trigger] w.drop_last()[i],
            ) by {
                assert(w.drop_last()[i] == w[i]);
            }
        }
        lemma_trim_end_drops(x, w.drop_last());
    } else {
        assert(x + w == x);
    }
}

proof fn lemma_trim_exact(w1: Seq<char>, m: Seq<char>, w2: Seq<char>)
    requires
        all_whitespace(w1),
        all_whitespace(w2),
        m.len() > 0 ==> !char_is_whitespace(m[0]) && !char_is_whitespace(m.last()),
    ensures
        trim_spec(w1 + m + w2) == m,
{
    assert(w1 + m + w2 == w1 + (m + w2));
    lemma_trim_start_drops(w1, m + w2);
    if m.len() > 0 {
        assert((m + w2)[0] == m[0]);
        assert(trim_start_spec(m + w2) == m + w2);
        lemma_trim_end_drops(m, w2);
        assert(trim_end_spec(m) == m);
    } else {
        assert(m + w2 == w2);
        assert(w2 + Seq::<char>::empty() == w2);
        lemma_trim_start_drops(w2, Seq::<char>::empty());
        assert(trim_start_spec(Seq::<char>::empty()) == Seq::<char>::empty());
    }
}

proof fn lemma_trim_start_shape(s: Seq<char>) -> (lo: int)
    ensures
        0 <= lo <= s.len(),
        trim_start_spec(s) == s.skip(lo),
        forall|i: int| 0 <= i < lo ==> char_is_whitespace(#[trigger] s[i]),
        lo < s.len() ==> !char_is_whitespace(s[lo]),
    decreases s.len(),
{
    if s.len() > 0 && char_is_whitespace(s[0]) {
        let k = lemma_trim_start_shape(s.drop_first());
        assert(s.drop_first().skip(k) == s.skip(k + 1));
        assert forall|i: int| 0 <= i < k + 1 implies char_is_whitespace(#[trigger] s[i]) by {
            if i > 0 {
                assert(s[i] == s.drop_first()[i - 1]);
            }
        }
        k + 1
    } else {
        assert(s.skip(0) == s);
        0
    }
}

proof fn lemma_trim_end_shape(s: Seq<char>) -> (hi: int)
    ensures
        0 <= hi <= s.len(),
        trim_end_spec(s) == s.take(hi),
        forall|i: int| hi <= i < s.len() ==> char_is_whitespace(#[trigger] s[i]),
        hi > 0 ==> !char_is_whitespace(s[hi - 1]),
    decreases s.len(),
{
    if s.len() > 0 && char_is_whitespace(s.last()) {
        let k = lemma_trim_end_shape(s.drop_last());
        assert(s.drop_last().take(k) == s.take(k));
        assert forall|i: int| k <= i < s.len() implies char_is_whitespace(#[trigger] s[i]) by {
            if i < s.len() - 1 {
                assert(s[i] == s.drop_last()[i]);
            }
        }
        k
    } else {
        assert(s.take(s.len() as int) == s);
        s.len() as int
    }
}

/// Trimming keeps one contiguous stretch of `s` and drops only whitespace
/// before and after it.
pub proof fn lemma_trim_keeps_middle(s: Seq<char>)
    ensures
        exists|lo: int, hi: int|
            0 <= lo <= hi <= s.len() && trim_spec(s) == s.subrange(lo, hi) && (forall|i: int|
                0 <= i < lo ==> char_is_whitespace(#[trigger] s[i])) && (forall|i: int|
                hi <= i < s.len() ==> char_is_whitespace(#[trigger] s[i])),
{
    let lo = lemma_trim_start_shape(s);
    let x = s.skip(lo);
    let h = lemma_trim_end_shape(x);
    assert(x.take(h) == s.subrange(lo, lo + h));
    assert forall|i: int| lo + h <= i < s.len() implies char_is_whitespace(#[trigger] s[i]) by {
        assert(s[i] == x[i - lo]);
    }
    assert(trim_spec(s) == s.subrange(lo, lo + h));
}

/// A trimmed string neither starts nor ends with whitespace.
pub proof fn lemma_trim_ends(s: Seq<char>)
    ensures
        trim_spec(s).len() > 0 ==> !char_is_whitespace(trim_spec(s)[0]) && !char_is_whitespace(
            trim_spec(s).last(),
        ),
{
    let lo = lemma_trim_start_shape(s);
    let x = s.skip(lo);
    let h = lemma_trim_end_shape(x);
    if h > 0 {
        assert(trim_spec(s) == x.take(h));
        assert(x.take(h)[0] == x[0]);
        assert(x[0] == s[lo]);
        assert(x.take(h).last() == x[h - 1]);
    }
}

/// Whitespace around a string does not change what trimming keeps of it.
pub proof fn lemma_trim_ignores_surrounding_whitespace(w1: Seq<char>, s: Seq<char>, w2: Seq<char>)
    requires
        all_whitespace(w1),
        all_whitespace(w2),
    ensures
        trim_spec(w1 + s + w2) == trim_spec(s),
{
    let lo = lemma_trim_start_shape(s);
    let x = s.skip(lo);
    let h = lemma_trim_end_shape(x);
    let m = x.take(h);
    lemma_trim_ends(s);
    assert(trim_spec(s) == m);
    let u1 = s.take(lo);
    let u2 = s.skip(lo + h);
    assert(s == u1 + m + u2);
    assert(all_whitespace(w1 + u1)) by {
        assert forall|i: int| 0 <= i < (w1 + u1).len() implies char_is_whitespace(
            #[trigger] (w1 + u1)[i],
        ) by {
            if i >= w1.len() {
                assert((w1 + u1)[i] == s[i - w1.len()]);
            }
        }
    }
    assert(all_whitespace(u2 + w2)) by {
        assert forall|i: int| 0 <= i < (u2 + w2).len() implies char_is_whitespace(
            #[trigger] (u2 + w2)[i],
        ) by {
            if i < u2.len() {
                assert((u2 + w2)[i] == s[lo + h + i]);
                assert(s[lo + h + i] == x[h + i]);
            }
        }
    }
    assert(w1 + s + w2 == (w1 + u1) + m + (u2 + w2));
    lemma_trim_exact(w1 + u1, m, u2 + w2);
}

/// The characters of `s` between its leading and its trailing whitespace.
pub fn trim_chars(s: &Vec<char>) -> (r: Vec<char>)
    ensures
        r@ == trim_spec(s@),
{
    let mut lo: usize = 0;
    assert(s@.skip(0) == s@);
    while lo < s.len() && is_whitespace(s[lo])
        invariant
            lo <= s.len(),
            trim_start_spec(s@) == trim_start_spec(s@.skip(lo as int)),
        decreases s.len() - lo,
    {
        assert(s@.skip(lo as int).drop_first() == s@.skip(lo + 1));
        lo = lo + 1;
    }
    let ghost mid = s@.skip(lo as int);
    assert(trim_start_spec(s@) == mid);
    let mut hi: usize = s.len();
    while hi > lo && is_whitespace(s[hi - 1])
        invariant
            lo <= hi <= s.len(),
            mid == s@.skip(lo as int),
            trim_end_spec(mid) == trim_end_spec(s@.subrange(lo as int, hi as int)),
        decreases hi,
    {
        assert(s@.subrange(lo as int, hi as int).drop_last() == s@.subrange(lo as int, hi - 1));
        hi = hi - 1;
    }
    let mut r: Vec<char> = Vec::new();
    let mut i: usize = lo;
    while i < hi
        invariant
            lo <= i <= hi <= s.len(),
            r@ == s@.subrange(lo as int, i as int),
        decreases hi - i,
    {
        r.push(s[i]);
        assert(s@.subrange(lo as int, i + 1) == s@.subrange(lo as int, i as int).push(s@[i as int]));
        i = i + 1;
    }
    assert(mid == s@.subrange(lo as int, s.len() as int));
    r
}

// ---------------------------------------------------------------------------
// Order of strings
// ---------------------------------------------------------------------------

/// `a` sorts strictly before `b`: character by character, by code point, a
/// proper prefix first. This is the order of `str` in std, which compares the
/// UTF-8 bytes, and UTF-8 keeps the order of code points.
pub open spec fn lex_lt(a: Seq<char>, b: Seq<char>) -> bool
    decreases a.len(),
{
    if b.len() == 0 {
        false
    } else if a.len() == 0 {
        true
    } else if a[0] != b[0] {
        a[0] < b[0]
    } else {
        lex_lt(a.drop_first(), b.drop_first())
    }
}

pub proof fn lemma_lex_irreflexive(a: Seq<char>)
    ensures
        !lex_lt(a, a),
    decreases a.len(),
{
    if a.len() > 0 {
        lemma_lex_irreflexive(a.drop_first());
    }
}

pub proof fn lemma_lex_transitive(a: Seq<char>, b: Seq<char>, c: Seq<char>)
    requires
        lex_lt(a, b),
        lex_lt(b, c),
    ensures
        lex_lt(a, c),
    decreases a.len(),
{
    if a.len() > 0 && a[0] == b[0] && b[0] == c[0] {
        lemma_lex_transitive(a.drop_first(), b.drop_first(), c.drop_first());
    }
}

pub proof fn lemma_lex_total(a: Seq<char>, b: Seq<char>)
    ensures
        a == b || lex_lt(a, b) || lex_lt(b, a),
    decreases a.len(),
{
    if a.len() > 0 && b.len() > 0 && a[0] == b[0] {
        lemma_lex_total(a.drop_first(), b.drop_first());
        if a.drop_first() == b.drop_first() {
            assert(a == seq![a[0]] + a.drop_first());
            assert(b == seq![b[0]] + b.drop_first());
        }
    } else if a.len() == 0 && b.len() == 0 {
        assert(a == b);
    }
}

pub proof fn lemma_lex_asymmetric(a: Seq<char>, b: Seq<char>)
    ensures
        !(lex_lt(a, b) && lex_lt(b, a)),
{
    if lex_lt(a, b) && lex_lt(b, a) {
        lemma_lex_transitive(a, b, a);
        lemma_lex_irreflexive(a);
    }
}

/// Strings that agree before position `i` and differ at `i` sort as their
/// characters at `i` do, whatever their lengths.
pub proof fn lemma_lex_first_difference(a: Seq<char>, b: Seq<char>, i: int)
    requires
        0 <= i < a.len(),
        i < b.len(),
        a.take(i) == b.take(i),
        a[i] != b[i],
    ensures
        lex_lt(a, b) == (a[i] < b[i]),
    decreases i,
{
    if i > 0 {
        assert(a[0] == a.take(i)[0]);
        assert(b[0] == b.take(i)[0]);
        let a1 = a.drop_first().take(i - 1);
        let b1 = b.drop_first().take(i - 1);
        assert(a1 == b1) by {
            assert forall|k: int| 0 <= k < i - 1 implies #[trigger] a1[k] == b1[k] by {
                assert(a1[k] == a[k + 1]);
                assert(b1[k] == b[k + 1]);
                assert(a.take(i)[k + 1] == a[k + 1]);
                assert(b.take(i)[k + 1] == b[k + 1]);
            }
        }
        lemma_lex_first_difference(a.drop_first(), b.drop_first(), i - 1);
    }
}

/// A proper prefix sorts before the longer string.
pub proof fn lemma_lex_prefix(a: Seq<char>, b: Seq<char>)
    requires
        a.len() < b.len(),
        a == b.take(a.len() as int),
    ensures
        lex_lt(a, b),
        !lex_lt(b, a),
    decreases a.len(),
{
    if a.len() > 0 {
        assert(a[0] == b[0]);
        assert(a.drop_first() == b.drop_first().take(a.drop_first().len() as int));
        lemma_lex_prefix(a.drop_first(), b.drop_first());
    }
}

/// Outcome of comparing two strings.
#[derive(Debug, Clone, Copy, PartialEq, Eq, Structural)]
pub enum LexOrder {
    Less,
    Equal,
    Greater,
}

/// Compares `a` and `b` in the order of `lex_lt`.
pub fn compare_chars(a: &Vec<char>, b: &Vec<char>) -> (r: LexOrder)
    ensures
        (r == LexOrder::Less) == lex_lt(a@, b@),
        (r == LexOrder::Equal) == (a@ == b@),
        (r == LexOrder::Greater) == lex_lt(b@, a@),
{
    let mut i: usize = 0;
    assert(a@.skip(0) == a@);
    assert(b@.skip(0) == b@);
    while i < a.len() && i < b.len() && a[i] == b[i]
        invariant
            i <= a.len(),
            i <= b.len(),
            a@.take(i as int) == b@.take(i as int),
            lex_lt(a@, b@) == lex_lt(a@.skip(i as int), b@.skip(i as int)),
            lex_lt(b@, a@) == lex_lt(b@.skip(i as int), a@.skip(i as int)),
        decreases a.len() - i,
    {
        assert(a@.skip(i as int).drop_first() == a@.skip(i + 1));
        assert(b@.skip(i as int).drop_first() == b@.skip(i + 1));
        assert(a@.take(i + 1) == a@.take(i as int).push(a@[i as int]));
        assert(b@.take(i + 1) == b@.take(i as int).push(b@[i as int]));
        i = i + 1;
    }
    proof {
        lemma_lex_irreflexive(a@);
        lemma_lex_asymmetric(a@, b@);
        assert(a@ == a@.take(i as int) + a@.skip(i as int));
        assert(b@ == b@.take(i as int) + b@.skip(i as int));
    }
    if i < a.len() && i < b.len() {
        if a[i] < b[i] {
            LexOrder::Less
        } else {
            assert(a@[i as int] != b@[i as int]);
            LexOrder::Greater
        }
    } else if i < b.len() {
        LexOrder::Less
    } else if i < a.len() {
        LexOrder::Greater
    } else {
        assert(a@ == a@.take(i as int));
        assert(b@ == b@.take(i as int));
        LexOrder::Equal
    }
}

// ---------------------------------------------------------------------------
// Substrings
// ---------------------------------------------------------------------------

/// `needle` occurs in `hay` starting at position `i`.
pub open spec fn occurs_at(hay: Seq<char>, needle: Seq<char>, i: int) -> bool {
    0 <= i && i + needle.len() <= hay.len() && hay.subrange(i, i + needle.len()) == needle
}

/// `needle` occurs somewhere in `hay`, as `str::contains` with a string pattern.
pub open spec fn has_infix(hay: Seq<char>, needle: Seq<char>) -> bool {
    exists|i: int| occurs_at(hay, needle, i)
}

/// Whether `needle` occurs in `hay` starting at position `i`.
pub fn matches_at(hay: &Vec<char>, needle: &Vec<char>, i: usize) -> (r: bool)
    ensures
        r == occurs_at(hay@, needle@, i as int),
{
    if i > hay.len() || needle.len() > hay.len() - i {
        return false;
    }
    let mut k: usize = 0;
    while k < needle.len()
        invariant
            k <= needle.len(),
            i + needle.len() <= hay.len(),
            forall|j: int| 0 <= j < k ==> hay@[i + j] == needle@[j],
        decreases needle.len() - k,
    {
        if hay[i + k] != needle[k] {
            assert(hay@.subrange(i as int, i + needle.len())[k as int] != needle@[k as int]);
            return false;
        }
        k = k + 1;
    }
    assert(hay@.subrange(i as int, i + needle.len()) == needle@);
    true
}

/// Whether `needle` occurs anywhere in `hay`.
pub fn contains_chars(hay: &Vec<char>, needle: &Vec<char>) -> (r: bool)
    ensures
        r == has_infix(hay@, needle@),
{
    let mut i: usize = 0;
    while i < hay.len()
        invariant
            i <= hay.len(),
            forall|j: int| 0 <= j < i ==> !occurs_at(hay@, needle@, j),
        decreases hay.len() - i,
    {
        if matches_at(hay, needle, i) {
            return true;
        }
        i = i + 1;
    }
    matches_at(hay, needle, i)
}

/// Whether the characters of the literal `needle` occur in `hay`.
pub fn contains_str(hay: &Vec<char>, needle: &str) -> (r: bool)
    ensures
        r == has_infix(hay@, needle@),
{
    let n = chars_of(needle);
    contains_chars(hay, &n)
}

/// `needle` occurs at `i` exactly when it fits there and each of its
/// characters equals the one of `hay` it lies on.
pub proof fn lemma_occurs_at(hay: Seq<char>, needle: Seq<char>, i: int)
    ensures
        occurs_at(hay, needle, i) <==> (0 <= i && i + needle.len() <= hay.len() && forall|k: int|
            0 <= k < needle.len() ==> hay[i + k] == #[trigger] needle[k]),
        has_infix(hay, needle) <==> exists|j: int| #[trigger] occurs_at(hay, needle, j),
{
    if 0 <= i && i + needle.len() <= hay.len() {
        if forall|k: int| 0 <= k < needle.len() ==> hay[i + k] == #[trigger] needle[k] {
            assert(hay.subrange(i, i + needle.len()) =~= needle);
        }
        if occurs_at(hay, needle, i) {
            assert forall|k: int| 0 <= k < needle.len() implies hay[i + k] == #[trigger] needle[k] by {
                assert(hay.subrange(i, i + needle.len())[k] == hay[i + k]);
            }
        }
    }
}

} // verus!
