//! Reading an episode page's heading: the season and episode numbers, and
//! the series title under which the catalogue files it.
use vstd::prelude::*;
use crate::number::{parse_unsigned, parse_unsigned_spec};
use crate::text::{
    chars_of, contains_str, has_infix, is_alphabetic, is_numeric, is_whitespace, occurs_at,
    string_of, char_is_alphabetic, char_is_numeric, char_is_whitespace,
};

verus! {

/// A character of a heading together with the Unicode classes that the
/// heading is read by.
#[derive(Debug, Clone, Copy, PartialEq, Eq, Structural)]
pub struct TitleChar {
    pub ch: char,
    pub numeric: bool,
    pub alphabetic: bool,
    pub whitespace: bool,
}

/// `c` with its classes as std's `char` methods give them.
pub open spec fn classify_char(c: char) -> TitleChar {
    TitleChar {
        ch: c,
        numeric: char_is_numeric(c),
        alphabetic: char_is_alphabetic(c),
        whitespace: char_is_whitespace(c),
    }
}

/// The characters of `t`, each with its classes.
pub open spec fn classify(t: Seq<char>) -> Seq<TitleChar> {
    t.map_values(|c: char| classify_char(c))
}

/// The plain characters of `s`.
pub open spec fn plain(s: Seq<TitleChar>) -> Seq<char> {
    s.map_values(|t: TitleChar| t.ch)
}

/// Each classified character carries the character and std's verdicts on it.
pub proof fn lemma_classify(t: Seq<char>)
    ensures
        classify(t).len() == t.len(),
        plain(classify(t)) == t,
        forall|i: int|
            0 <= i < t.len() ==> (#[trigger] classify(t)[i]).ch == t[i] && classify(t)[i].numeric
                == char_is_numeric(t[i]) && classify(t)[i].alphabetic == char_is_alphabetic(t[i])
                && classify(t)[i].whitespace == char_is_whitespace(t[i]),
{
    assert(plain(classify(t)) =~= t);
}

/// The plain characters are the characters, in order.
pub proof fn lemma_plain(s: Seq<TitleChar>)
    ensures
        plain(s).len() == s.len(),
        forall|i: int| 0 <= i < s.len() ==> #[trigger] plain(s)[i] == s[i].ch,
{
}

/// Classifies each character of `title`.
pub fn classify_title(title: &str) -> (r: Vec<TitleChar>)
    ensures
        r@ == classify(title@),
{
    let cs = chars_of(title);
    let mut r: Vec<TitleChar> = Vec::new();
    let mut i: usize = 0;
    assert(classify(cs@.take(0)) =~= Seq::<TitleChar>::empty());
    while i < cs.len()
        invariant
            i <= cs.len(),
            cs@ == title@,
            r@ == classify(cs@.take(i as int)),
        decreases cs.len() - i,
    {
        let c = cs[i];
        let info = TitleChar {
            ch: c,
            numeric: is_numeric(c),
            alphabetic: is_alphabetic(c),
            whitespace: is_whitespace(c),
        };
        assert(info == classify_char(c));
        r.push(info);
        assert(cs@.take(i + 1) == cs@.take(i as int).push(c));
        assert(classify(cs@.take(i + 1)) =~= classify(cs@.take(i as int)).push(info));
        i = i + 1;
    }
    assert(cs@.take(cs.len() as int) == cs@);
    r
}

/// The plain characters of `s`.
pub fn plain_chars(s: &Vec<TitleChar>) -> (r: Vec<char>)
    ensures
        r@ == plain(s@),
{
    let mut r: Vec<char> = Vec::new();
    let mut i: usize = 0;
    while i < s.len()
        invariant
            i <= s.len(),
            r@ == plain(s@.take(i as int)),
        decreases s.len() - i,
    {
        r.push(s[i].ch);
        assert(s@.take(i + 1) == s@.take(i as int).push(s@[i as int]));
        assert(plain(s@.take(i + 1)) == plain(s@.take(i as int)).push(s@[i as int].ch));
        i = i + 1;
    }
    assert(s@.take(s.len() as int) == s@);
    r
}

// ---------------------------------------------------------------------------
// Season and episode numbers
// ---------------------------------------------------------------------------

/// The run `cur` as a list of at most one run: nothing where it is empty.
pub open spec fn flush(cur: Seq<char>) -> Seq<Seq<char>> {
    if cur.len() > 0 {
        seq![cur]
    } else {
        Seq::<Seq<char>>::empty()
    }
}

/// The maximal runs of numeric characters of `cur + s`, where `cur` holds
/// numeric characters that precede `s`.
pub open spec fn runs_from(s: Seq<TitleChar>, cur: Seq<char>) -> Seq<Seq<char>>
    decreases s.len(),
{
    if s.len() == 0 {
        flush(cur)
    } else if s[0].numeric {
        runs_from(s.drop_first(), cur.push(s[0].ch))
    } else {
        flush(cur) + runs_from(s.drop_first(), Seq::<char>::empty())
    }
}

/// The maximal runs of numeric characters of `s`, in order. These are the
/// words left when every other character is replaced by a space.
pub open spec fn numeric_runs(s: Seq<TitleChar>) -> Seq<Seq<char>> {
    runs_from(s, Seq::<char>::empty())
}

/// The season and episode numbers of a heading: the first two numbers in it,
/// or 99 and 99 where it holds fewer than two; `None` where one of the first
/// two is not a `u8` in ASCII digits.
pub open spec fn title_numbers(s: Seq<TitleChar>) -> Option<(u8, u8)> {
    let runs = numeric_runs(s);
    if runs.len() >= 2 {
        match (parse_unsigned_spec(runs[0], 255), parse_unsigned_spec(runs[1], 255)) {
            (Some(a), Some(b)) => Some((a as u8, b as u8)),
            _ => None,
        }
    } else {
        Some((99, 99))
    }
}

/// The runs as sequences of characters.
pub open spec fn run_views(v: Seq<Vec<char>>) -> Seq<Seq<char>> {
    v.map_values(|r: Vec<char>| r@)
}

/// The maximal runs of numeric characters of `s`.
pub fn numeric_runs_of(s: &Vec<TitleChar>) -> (r: Vec<Vec<char>>)
    ensures
        run_views(r@) == numeric_runs(s@),
{
    let mut runs: Vec<Vec<char>> = Vec::new();
    let mut cur: Vec<char> = Vec::new();
    let mut i: usize = 0;
    assert(s@.skip(0) == s@);
    while i < s.len()
        invariant
            i <= s.len(),
            run_views(runs@) + runs_from(s@.skip(i as int), cur@) == numeric_runs(s@),
        decreases s.len() - i,
    {
        let ghost rest = s@.skip(i as int);
        assert(rest.drop_first() == s@.skip(i + 1));
        assert(rest[0] == s@[i as int]);
        if s[i].numeric {
            cur.push(s[i].ch);
        } else {
            let ghost old_runs = run_views(runs@);
            let ghost old_cur = cur@;
            if cur.len() > 0 {
                runs.push(cur);
                assert(run_views(runs@) == old_runs.push(old_cur));
            }
            cur = Vec::new();
            assert(run_views(runs@) == old_runs + flush(old_cur));
            assert(old_runs + (flush(old_cur) + runs_from(s@.skip(i + 1), Seq::<char>::empty()))
                == (old_runs + flush(old_cur)) + runs_from(
                s@.skip(i + 1),
                Seq::<char>::empty(),
            ));
        }
        i = i + 1;
    }
    let ghost old_runs = run_views(runs@);
    let ghost old_cur = cur@;
    assert(s@.skip(i as int).len() == 0);
    if cur.len() > 0 {
        runs.push(cur);
        assert(run_views(runs@) == old_runs.push(old_cur));
    } else {
        assert(old_runs + flush(old_cur) == old_runs);
    }
    runs
}

/// The season and episode numbers of a heading, as `title_numbers` gives them.
pub fn title_numbers_of(s: &Vec<TitleChar>) -> (r: Option<(u8, u8)>)
    ensures
        r == title_numbers(s@),
{
    let runs = numeric_runs_of(s);
    proof {
        assert(run_views(runs@).len() == runs@.len());
    }
    if runs.len() >= 2 {
        assert(run_views(runs@)[0] == runs@[0]@);
        assert(run_views(runs@)[1] == runs@[1]@);
        let a = parse_unsigned(&runs[0], 255);
        let b = parse_unsigned(&runs[1], 255);
        match (a, b) {
            (Some(x), Some(y)) => Some((x as u8, y as u8)),
            _ => None,
        }
    } else {
        Some((99, 99))
    }
}

proof fn lemma_runs_split(x: Seq<TitleChar>, c: TitleChar, y: Seq<TitleChar>, cur: Seq<char>)
    requires
        !c.numeric,
    ensures
        runs_from(x + seq![c] + y, cur) == runs_from(x, cur) + numeric_runs(y),
    decreases x.len(),
{
    let whole = x + seq![c] + y;
    if x.len() == 0 {
        assert(whole == seq![c] + y);
        assert(whole[0] == c);
        assert(whole.drop_first() == y);
    } else {
        assert(whole[0] == x[0]);
        assert(whole.drop_first() == x.drop_first() + seq![c] + y);
        if x[0].numeric {
            lemma_runs_split(x.drop_first(), c, y, cur.push(x[0].ch));
        } else {
            lemma_runs_split(x.drop_first(), c, y, Seq::<char>::empty());
            assert(flush(cur) + (runs_from(x.drop_first(), Seq::<char>::empty()) + numeric_runs(y))
                == (flush(cur) + runs_from(x.drop_first(), Seq::<char>::empty())) + numeric_runs(
                y,
            ));
        }
    }
}

proof fn lemma_runs_all_numeric(s: Seq<TitleChar>, cur: Seq<char>)
    requires
        forall|i: int| 0 <= i < s.len() ==> (#[trigger] s[i]).numeric,
    ensures
        runs_from(s, cur) == flush(cur + plain(s)),
    decreases s.len(),
{
    if s.len() == 0 {
        assert(cur + plain(s) == cur);
    } else {
        assert forall|i: int| 0 <= i < s.drop_first().len() implies (
        #[trigger] s.drop_first()[i]).numeric by {
            assert(s.drop_first()[i] == s[i + 1]);
        }
        lemma_runs_all_numeric(s.drop_first(), cur.push(s[0].ch));
        assert(cur.push(s[0].ch) + plain(s.drop_first()) == cur + plain(s));
    }
}

proof fn lemma_runs_no_numeric(s: Seq<TitleChar>)
    requires
        forall|i: int| 0 <= i < s.len() ==> !(#[trigger] s[i]).numeric,
    ensures
        numeric_runs(s) == Seq::<Seq<char>>::empty(),
    decreases s.len(),
{
    if s.len() > 0 {
        assert forall|i: int| 0 <= i < s.drop_first().len() implies !(
        #[trigger] s.drop_first()[i]).numeric by {
            assert(s.drop_first()[i] == s[i + 1]);
        }
        lemma_runs_no_numeric(s.drop_first());
        assert(flush(Seq::<char>::empty()) + Seq::<Seq<char>>::empty() == Seq::<
            Seq<char>,
        >::empty());
    }
}

/// A heading with no numeric character holds no number.
pub proof fn lemma_numbers_none(s: Seq<TitleChar>)
    requires
        forall|i: int| 0 <= i < s.len() ==> !(#[trigger] s[i]).numeric,
    ensures
        numeric_runs(s).len() == 0,
        title_numbers(s) == Some((99u8, 99u8)),
{
    lemma_runs_no_numeric(s);
}

/// A non-empty stretch of numeric characters is one number, its characters.
pub proof fn lemma_numbers_one_run(s: Seq<TitleChar>)
    requires
        s.len() > 0,
        forall|i: int| 0 <= i < s.len() ==> (#[trigger] s[i]).numeric,
    ensures
        numeric_runs(s) == seq![plain(s)],
{
    lemma_runs_all_numeric(s, Seq::<char>::empty());
    assert(Seq::<char>::empty() + plain(s) == plain(s));
}

/// A character that is not numeric separates the numbers before it from
/// those after it.
pub proof fn lemma_numbers_split(x: Seq<TitleChar>, c: TitleChar, y: Seq<TitleChar>)
    requires
        !c.numeric,
    ensures
        numeric_runs(x + seq![c] + y) == numeric_runs(x) + numeric_runs(y),
{
    lemma_runs_split(x, c, y, Seq::<char>::empty());
}

/// Fewer than two numbers give season 99 and episode 99; otherwise the
/// first two numbers, where both are `u8`s in ASCII digits.
pub proof fn lemma_numbers_from_runs(s: Seq<TitleChar>)
    ensures
        numeric_runs(s).len() < 2 ==> title_numbers(s) == Some((99u8, 99u8)),
        numeric_runs(s).len() >= 2 ==> ((title_numbers(s) is Some) <==> (parse_unsigned_spec(
            numeric_runs(s)[0],
            255,
        ) is Some && parse_unsigned_spec(numeric_runs(s)[1], 255) is Some)),
        numeric_runs(s).len() >= 2 && title_numbers(s) is Some ==> parse_unsigned_spec(
            numeric_runs(s)[0],
            255,
        ) == Some((title_numbers(s)->0).0 as nat) && parse_unsigned_spec(numeric_runs(s)[1], 255)
            == Some((title_numbers(s)->0).1 as nat),
{
}

// ---------------------------------------------------------------------------
// Series title
// ---------------------------------------------------------------------------

pub open spec fn is_word_char(t: TitleChar) -> bool {
    t.alphabetic || t.whitespace
}

pub open spec fn word_pred() -> spec_fn(TitleChar) -> bool {
    |t: TitleChar| is_word_char(t)
}

/// `s` with every occurrence of `pat` removed, scanning from the left and
/// never letting two removed occurrences overlap, as `str::replace(pat, "")`.
pub open spec fn delete_all(s: Seq<TitleChar>, pat: Seq<char>) -> Seq<TitleChar>
    decreases s.len(),
{
    if s.len() == 0 {
        s
    } else if pat.len() > 0 && occurs_at(plain(s), pat, 0) {
        delete_all(s.skip(pat.len() as int), pat)
    } else {
        seq![s[0]] + delete_all(s.drop_first(), pat)
    }
}

/// `s` without its leading whitespace.
pub open spec fn trim_start_flags(s: Seq<TitleChar>) -> Seq<TitleChar>
    decreases s.len(),
{
    if s.len() > 0 && s[0].whitespace {
        trim_start_flags(s.drop_first())
    } else {
        s
    }
}

/// `s` without its trailing whitespace.
pub open spec fn trim_end_flags(s: Seq<TitleChar>) -> Seq<TitleChar>
    decreases s.len(),
{
    if s.len() > 0 && s.last().whitespace {
        trim_end_flags(s.drop_last())
    } else {
        s
    }
}

/// A heading character counts as a word character exactly when it is a
/// letter or whitespace.
pub proof fn lemma_word_pred(t: TitleChar)
    ensures
        word_pred()(t) <==> (t.alphabetic || t.whitespace),
{
}

proof fn lemma_trim_start_flags_shape(s: Seq<TitleChar>) -> (lo: int)
    ensures
        0 <= lo <= s.len(),
        trim_start_flags(s) == s.skip(lo),
        forall|i: int| 0 <= i < lo ==> (#[trigger] s[i]).whitespace,
        lo < s.len() ==> !s[lo].whitespace,
    decreases s.len(),
{
    if s.len() > 0 && s[0].whitespace {
        let k = lemma_trim_start_flags_shape(s.drop_first());
        assert(s.drop_first().skip(k) == s.skip(k + 1));
        assert forall|i: int| 0 <= i < k + 1 implies (#[trigger] s[i]).whitespace by {
            if i > 0 {
                assert(s[i] == s.drop_first()[i - 1]);
            }
        }
        k + 1
    } else {
        assert(s.skip(0) == s);
        0
    }
}

proof fn lemma_trim_end_flags_shape(s: Seq<TitleChar>) -> (hi: int)
    ensures
        0 <= hi <= s.len(),
        trim_end_flags(s) == s.take(hi),
        forall|i: int| hi <= i < s.len() ==> (#[trigger] s[i]).whitespace,
        hi > 0 ==> !s[hi - 1].whitespace,
    decreases s.len(),
{
    if s.len() > 0 && s.last().whitespace {
        let k = lemma_trim_end_flags_shape(s.drop_last());
        assert(s.drop_last().take(k) == s.take(k));
        assert forall|i: int| k <= i < s.len() implies (#[trigger] s[i]).whitespace by {
            if i < s.len() - 1 {
                assert(s[i] == s.drop_last()[i]);
            }
        }
        k
    } else {
        assert(s.take(s.len() as int) == s);
        s.len() as int
    }
}

/// Trimming keeps one contiguous stretch of `s` that neither starts nor ends
/// with whitespace, and drops only whitespace before and after it.
pub proof fn lemma_trim_flags(s: Seq<TitleChar>)
    ensures
        exists|lo: int, hi: int|
            0 <= lo <= hi <= s.len() && trim_end_flags(trim_start_flags(s)) == s.subrange(lo, hi)
                && (forall|i: int| 0 <= i < lo ==> (#[trigger] s[i]).whitespace) && (forall|i: int|
                hi <= i < s.len() ==> (#[trigger] s[i]).whitespace) && (lo < hi ==> !s[lo].whitespace
                && !s[hi - 1].whitespace),
{
    let lo = lemma_trim_start_flags_shape(s);
    let x = s.skip(lo);
    let h = lemma_trim_end_flags_shape(x);
    assert(x.take(h) == s.subrange(lo, lo + h));
    assert forall|i: int| lo + h <= i < s.len() implies (#[trigger] s[i]).whitespace by {
        assert(s[i] == x[i - lo]);
    }
    if h > 0 {
        assert(x[0] == s[lo]);
        assert(x[h - 1] == s[lo + h - 1]);
    }
}

/// Where `pat` does not start at any position of `x` (reading on into `y`),
/// removing `pat` keeps `x` whole.
pub proof fn lemma_delete_all_keeps(x: Seq<TitleChar>, y: Seq<TitleChar>, pat: Seq<char>)
    requires
        forall|i: int| 0 <= i < x.len() ==> !occurs_at(plain(x + y), pat, i),
    ensures
        delete_all(x + y, pat) == x + delete_all(y, pat),
    decreases x.len(),
{
    if x.len() == 0 {
        assert(x + y == y);
    } else {
        let w = x + y;
        assert(w[0] == x[0]);
        assert(w.drop_first() == x.drop_first() + y);
        assert(!occurs_at(plain(w), pat, 0));
        assert(plain(w.drop_first()) == plain(w).drop_first());
        assert forall|i: int| 0 <= i < x.drop_first().len() implies !occurs_at(
            plain(x.drop_first() + y),
            pat,
            i,
        ) by {
            assert(!occurs_at(plain(w), pat, i + 1));
            if occurs_at(plain(x.drop_first() + y), pat, i) {
                assert(plain(w).subrange(i + 1, i + 1 + pat.len()) == plain(
                    x.drop_first() + y,
                ).subrange(i, i + pat.len()));
            }
        }
        lemma_delete_all_keeps(x.drop_first(), y, pat);
        assert(x == seq![x[0]] + x.drop_first());
    }
}

/// An occurrence of `pat` at the front is removed.
pub proof fn lemma_delete_all_front(x: Seq<TitleChar>, y: Seq<TitleChar>, pat: Seq<char>)
    requires
        pat.len() > 0,
        plain(x) == pat,
    ensures
        delete_all(x + y, pat) == delete_all(y, pat),
{
    let w = x + y;
    assert(plain(w).subrange(0, pat.len() as int) == plain(x));
    assert(w.skip(pat.len() as int) == y);
}

/// Where `pat` does not occur, removing it changes nothing.
pub proof fn lemma_delete_all_absent(s: Seq<TitleChar>, pat: Seq<char>)
    requires
        !has_infix(plain(s), pat),
    ensures
        delete_all(s, pat) == s,
{
    assert(s + Seq::<TitleChar>::empty() == s);
    lemma_delete_all_keeps(s, Seq::<TitleChar>::empty(), pat);
    assert(delete_all(Seq::<TitleChar>::empty(), pat) == Seq::<TitleChar>::empty());
}

/// The title made of the letters and spaces of the heading, with the words
/// for "season", "episode" and "in Ukrainian" taken out, and trimmed.
pub open spec fn fallback_title(s: Seq<TitleChar>) -> Seq<char> {
    let words = s.filter(word_pred());
    let cut = delete_all(delete_all(delete_all(words, " сезон "@), "серія"@), "українською"@);
    plain(trim_end_flags(trim_start_flags(cut)))
}

/// A heading whose letters and spaces hold none of the words cut out keeps
/// them all, only trimmed.
pub proof fn lemma_fallback_nothing_cut(s: Seq<TitleChar>)
    requires
        !has_infix(plain(s.filter(word_pred())), " сезон "@),
        !has_infix(plain(s.filter(word_pred())), "серія"@),
        !has_infix(plain(s.filter(word_pred())), "українською"@),
    ensures
        fallback_title(s) == plain(trim_end_flags(trim_start_flags(s.filter(word_pred())))),
{
    let words = s.filter(word_pred());
    lemma_delete_all_absent(words, " сезон "@);
    lemma_delete_all_absent(words, "серія"@);
    lemma_delete_all_absent(words, "українською"@);
}

proof fn lemma_empty_title(s: Seq<TitleChar>, a: Seq<char>, b: Seq<char>, c: Seq<char>)
    requires
        delete_all(delete_all(delete_all(s.filter(word_pred()), a), b), c).len() == 0,
        a == " сезон "@,
        b == "серія"@,
        c == "українською"@,
    ensures
        fallback_title(s).len() == 0,
{
    let cut = delete_all(delete_all(delete_all(s.filter(word_pred()), a), b), c);
    assert(trim_start_flags(cut) == cut);
    assert(trim_end_flags(cut) == cut);
}

/// The word " сезон " is cut out of a heading's letters and spaces.
pub proof fn lemma_fallback_cuts_first(s: Seq<TitleChar>)
    requires
        plain(s.filter(word_pred())) == " сезон "@,
    ensures
        fallback_title(s).len() == 0,
{
    proof_reveal_cut_words();
    let words = s.filter(word_pred());
    let e = Seq::<TitleChar>::empty();
    assert(words + e == words);
    lemma_delete_all_front(words, e, " сезон "@);
    assert(delete_all(e, " сезон "@) == e);
    assert(delete_all(e, "серія"@) == e);
    assert(delete_all(e, "українською"@) == e);
    lemma_empty_title(s, " сезон "@, "серія"@, "українською"@);
}

/// The word "серія" is cut out of a heading's letters and spaces.
pub proof fn lemma_fallback_cuts_second(s: Seq<TitleChar>)
    requires
        plain(s.filter(word_pred())) == "серія"@,
    ensures
        fallback_title(s).len() == 0,
{
    proof_reveal_cut_words();
    let words = s.filter(word_pred());
    let e = Seq::<TitleChar>::empty();
    assert(words + e == words);
    lemma_delete_all_absent(words, " сезон "@);
    lemma_delete_all_front(words, e, "серія"@);
    assert(delete_all(e, "серія"@) == e);
    assert(delete_all(e, "українською"@) == e);
    lemma_empty_title(s, " сезон "@, "серія"@, "українською"@);
}

/// The word "українською" is cut out of a heading's letters and spaces.
pub proof fn lemma_fallback_cuts_third(s: Seq<TitleChar>)
    requires
        plain(s.filter(word_pred())) == "українською"@,
    ensures
        fallback_title(s).len() == 0,
{
    proof_reveal_cut_words();
    let words = s.filter(word_pred());
    let e = Seq::<TitleChar>::empty();
    assert(words + e == words);
    let h = "українською"@;
    assert forall|i: int| !occurs_at(h, " сезон "@, i) by {
        if occurs_at(h, " сезон "@, i) {
            assert(h.subrange(i, i + 7)[0] == h[i]);
        }
    }
    assert forall|i: int| !occurs_at(h, "серія"@, i) by {
        if occurs_at(h, "серія"@, i) {
            assert(h.subrange(i, i + 5)[0] == h[i]);
            assert(h.subrange(i, i + 5)[1] == h[i + 1]);
        }
    }
    lemma_delete_all_absent(words, " сезон "@);
    lemma_delete_all_absent(words, "серія"@);
    lemma_delete_all_front(words, e, "українською"@);
    assert(delete_all(e, "українською"@) == e);
    lemma_empty_title(s, " сезон "@, "серія"@, "українською"@);
}

proof fn proof_reveal_cut_words()
    ensures
        " сезон "@ == seq![' ', 'с', 'е', 'з', 'о', 'н', ' '],
        "серія"@ == seq!['с', 'е', 'р', 'і', 'я'],
        "українською"@ == seq!['у', 'к', 'р', 'а', 'ї', 'н', 'с', 'ь', 'к', 'о', 'ю'],
{
    reveal_strlit(" сезон ");
    reveal_strlit("серія");
    reveal_strlit("українською");
}

/// The series title under which a heading is filed: a fixed name where the
/// heading mentions one of the known series, else `fallback_title`.
pub open spec fn canonical_title(s: Seq<TitleChar>) -> Seq<char> {
    let t = plain(s);
    if has_infix(t, "Губка Боб"@) || has_infix(t, "ГУБКА БОБ"@) {
        "Губка Боб"@
    } else if has_infix(t, "Сімпсони"@) || has_infix(t, "Сімпсон"@) {
        "Сімпсони"@
    } else if has_infix(t, "Гріфіни"@) {
        "Гріфіни"@
    } else if has_infix(t, "Готель Хазбін"@) {
        "Готель Хазбін"@
    } else if has_infix(t, "Дунканвілл"@) || has_infix(t, "Дунканвілль"@) {
        "Дунканвілль"@
    } else if has_infix(t, "БоДжек"@) {
        "Кінь БоДжек"@
    } else if has_infix(t, "Ґравіті Фолз"@) {
        "Ґравіті Фолз"@
    } else if has_infix(t, "Південний Парк"@) || has_infix(t, "Картманові"@) || has_infix(t, "Саус Парку"@) {
        "Південний Парк"@
    } else if has_infix(t, "Зім"@) {
        "Завойовник Зім"@
    } else if has_infix(t, "Роко"@) || has_infix(t, "Сучасне Рокове Життя"@) || has_infix(t, "Сучасне рокове життя"@) {
        "Сучасне Рокове Життя"@
    } else if has_infix(t, "Футурама"@) {
        "Футурама"@
    } else {
        fallback_title(s)
    }
}

/// A heading that mentions "Губка Боб", "ГУБКА БОБ", is filed under "Губка Боб".
pub proof fn lemma_title_sponge_bob(s: Seq<TitleChar>)
    requires
        has_infix(plain(s), "Губка Боб"@) || has_infix(plain(s), "ГУБКА БОБ"@),
    ensures
        canonical_title(s) == "Губка Боб"@,
{
}

/// A heading that mentions "Сімпсони", "Сімпсон", and none of the series names checked before, is filed under "Сімпсони".
pub proof fn lemma_title_simpsons(s: Seq<TitleChar>)
    requires
        has_infix(plain(s), "Сімпсони"@) || has_infix(plain(s), "Сімпсон"@),
        !has_infix(plain(s), "Губка Боб"@),
        !has_infix(plain(s), "ГУБКА БОБ"@),
    ensures
        canonical_title(s) == "Сімпсони"@,
{
}

/// A heading that mentions "Гріфіни", and none of the series names checked before, is filed under "Гріфіни".
pub proof fn lemma_title_griffins(s: Seq<TitleChar>)
    requires
        has_infix(plain(s), "Гріфіни"@),
        !has_infix(plain(s), "Губка Боб"@),
        !has_infix(plain(s), "ГУБКА БОБ"@),
        !has_infix(plain(s), "Сімпсони"@),
        !has_infix(plain(s), "Сімпсон"@),
    ensures
        canonical_title(s) == "Гріфіни"@,
{
}

/// A heading that mentions "Готель Хазбін", and none of the series names checked before, is filed under "Готель Хазбін".
pub proof fn lemma_title_hazbin_hotel(s: Seq<TitleChar>)
    requires
        has_infix(plain(s), "Готель Хазбін"@),
        !has_infix(plain(s), "Губка Боб"@),
        !has_infix(plain(s), "ГУБКА БОБ"@),
        !has_infix(plain(s), "Сімпсони"@),
        !has_infix(plain(s), "Сімпсон"@),
        !has_infix(plain(s), "Гріфіни"@),
    ensures
        canonical_title(s) == "Готель Хазбін"@,
{
}

/// A heading that mentions "Дунканвілл", "Дунканвілль", and none of the series names checked before, is filed under "Дунканвілль".
pub proof fn lemma_title_duncanville(s: Seq<TitleChar>)
    requires
        has_infix(plain(s), "Дунканвілл"@) || has_infix(plain(s), "Дунканвілль"@),
        !has_infix(plain(s), "Губка Боб"@),
        !has_infix(plain(s), "ГУБКА БОБ"@),
        !has_infix(plain(s), "Сімпсони"@),
        !has_infix(plain(s), "Сімпсон"@),
        !has_infix(plain(s), "Гріфіни"@),
        !has_infix(plain(s), "Готель Хазбін"@),
    ensures
        canonical_title(s) == "Дунканвілль"@,
{
}

/// A heading that mentions "БоДжек", and none of the series names checked before, is filed under "Кінь БоДжек".
pub proof fn lemma_title_bojack(s: Seq<TitleChar>)
    requires
        has_infix(plain(s), "БоДжек"@),
        !has_infix(plain(s), "Губка Боб"@),
        !has_infix(plain(s), "ГУБКА БОБ"@),
        !has_infix(plain(s), "Сімпсони"@),
        !has_infix(plain(s), "Сімпсон"@),
        !has_infix(plain(s), "Гріфіни"@),
        !has_infix(plain(s), "Готель Хазбін"@),
        !has_infix(plain(s), "Дунканвілл"@),
        !has_infix(plain(s), "Дунканвілль"@),
    ensures
        canonical_title(s) == "Кінь БоДжек"@,
{
}

/// A heading that mentions "Ґравіті Фолз", and none of the series names checked before, is filed under "Ґравіті Фолз".
pub proof fn lemma_title_gravity_falls(s: Seq<TitleChar>)
    requires
        has_infix(plain(s), "Ґравіті Фолз"@),
        !has_infix(plain(s), "Губка Боб"@),
        !has_infix(plain(s), "ГУБКА БОБ"@),
        !has_infix(plain(s), "Сімпсони"@),
        !has_infix(plain(s), "Сімпсон"@),
        !has_infix(plain(s), "Гріфіни"@),
        !has_infix(plain(s), "Готель Хазбін"@),
        !has_infix(plain(s), "Дунканвілл"@),
        !has_infix(plain(s), "Дунканвілль"@),
        !has_infix(plain(s), "БоДжек"@),
    ensures
        canonical_title(s) == "Ґравіті Фолз"@,
{
}

/// A heading that mentions "Південний Парк", "Картманові", "Саус Парку", and none of the series names checked before, is filed under "Південний Парк".
pub proof fn lemma_title_south_park(s: Seq<TitleChar>)
    requires
        has_infix(plain(s), "Південний Парк"@) || has_infix(plain(s), "Картманові"@) || has_infix(plain(s), "Саус Парку"@),
        !has_infix(plain(s), "Губка Боб"@),
        !has_infix(plain(s), "ГУБКА БОБ"@),
        !has_infix(plain(s), "Сімпсони"@),
        !has_infix(plain(s), "Сімпсон"@),
        !has_infix(plain(s), "Гріфіни"@),
        !has_infix(plain(s), "Готель Хазбін"@),
        !has_infix(plain(s), "Дунканвілл"@),
        !has_infix(plain(s), "Дунканвілль"@),
        !has_infix(plain(s), "БоДжек"@),
        !has_infix(plain(s), "Ґравіті Фолз"@),
    ensures
        canonical_title(s) == "Південний Парк"@,
{
}

/// A heading that mentions "Зім", and none of the series names checked before, is filed under "Завойовник Зім".
pub proof fn lemma_title_zim(s: Seq<TitleChar>)
    requires
        has_infix(plain(s), "Зім"@),
        !has_infix(plain(s), "Губка Боб"@),
        !has_infix(plain(s), "ГУБКА БОБ"@),
        !has_infix(plain(s), "Сімпсони"@),
        !has_infix(plain(s), "Сімпсон"@),
        !has_infix(plain(s), "Гріфіни"@),
        !has_infix(plain(s), "Готель Хазбін"@),
        !has_infix(plain(s), "Дунканвілл"@),
        !has_infix(plain(s), "Дунканвілль"@),
        !has_infix(plain(s), "БоДжек"@),
        !has_infix(plain(s), "Ґравіті Фолз"@),
        !has_infix(plain(s), "Південний Парк"@),
        !has_infix(plain(s), "Картманові"@),
        !has_infix(plain(s), "Саус Парку"@),
    ensures
        canonical_title(s) == "Завойовник Зім"@,
{
}

/// A heading that mentions "Роко", "Сучасне Рокове Життя", "Сучасне рокове життя", and none of the series names checked before, is filed under "Сучасне Рокове Життя".
pub proof fn lemma_title_rocko(s: Seq<TitleChar>)
    requires
        has_infix(plain(s), "Роко"@) || has_infix(plain(s), "Сучасне Рокове Життя"@) || has_infix(plain(s), "Сучасне рокове життя"@),
        !has_infix(plain(s), "Губка Боб"@),
        !has_infix(plain(s), "ГУБКА БОБ"@),
        !has_infix(plain(s), "Сімпсони"@),
        !has_infix(plain(s), "Сімпсон"@),
        !has_infix(plain(s), "Гріфіни"@),
        !has_infix(plain(s), "Готель Хазбін"@),
        !has_infix(plain(s), "Дунканвілл"@),
        !has_infix(plain(s), "Дунканвілль"@),
        !has_infix(plain(s), "БоДжек"@),
        !has_infix(plain(s), "Ґравіті Фолз"@),
        !has_infix(plain(s), "Південний Парк"@),
        !has_infix(plain(s), "Картманові"@),
        !has_infix(plain(s), "Саус Парку"@),
        !has_infix(plain(s), "Зім"@),
    ensures
        canonical_title(s) == "Сучасне Рокове Життя"@,
{
}

/// A heading that mentions "Футурама", and none of the series names checked before, is filed under "Футурама".
pub proof fn lemma_title_futurama(s: Seq<TitleChar>)
    requires
        has_infix(plain(s), "Футурама"@),
        !has_infix(plain(s), "Губка Боб"@),
        !has_infix(plain(s), "ГУБКА БОБ"@),
        !has_infix(plain(s), "Сімпсони"@),
        !has_infix(plain(s), "Сімпсон"@),
        !has_infix(plain(s), "Гріфіни"@),
        !has_infix(plain(s), "Готель Хазбін"@),
        !has_infix(plain(s), "Дунканвілл"@),
        !has_infix(plain(s), "Дунканвілль"@),
        !has_infix(plain(s), "БоДжек"@),
        !has_infix(plain(s), "Ґравіті Фолз"@),
        !has_infix(plain(s), "Південний Парк"@),
        !has_infix(plain(s), "Картманові"@),
        !has_infix(plain(s), "Саус Парку"@),
        !has_infix(plain(s), "Зім"@),
        !has_infix(plain(s), "Роко"@),
        !has_infix(plain(s), "Сучасне Рокове Життя"@),
        !has_infix(plain(s), "Сучасне рокове життя"@),
    ensures
        canonical_title(s) == "Футурама"@,
{
}

/// A heading that mentions none of the known series keeps its own words.
pub proof fn lemma_title_other(s: Seq<TitleChar>)
    requires
        !has_infix(plain(s), "Губка Боб"@),
        !has_infix(plain(s), "ГУБКА БОБ"@),
        !has_infix(plain(s), "Сімпсони"@),
        !has_infix(plain(s), "Сімпсон"@),
        !has_infix(plain(s), "Гріфіни"@),
        !has_infix(plain(s), "Готель Хазбін"@),
        !has_infix(plain(s), "Дунканвілл"@),
        !has_infix(plain(s), "Дунканвілль"@),
        !has_infix(plain(s), "БоДжек"@),
        !has_infix(plain(s), "Ґравіті Фолз"@),
        !has_infix(plain(s), "Південний Парк"@),
        !has_infix(plain(s), "Картманові"@),
        !has_infix(plain(s), "Саус Парку"@),
        !has_infix(plain(s), "Зім"@),
        !has_infix(plain(s), "Роко"@),
        !has_infix(plain(s), "Сучасне Рокове Життя"@),
        !has_infix(plain(s), "Сучасне рокове життя"@),
        !has_infix(plain(s), "Футурама"@),
    ensures
        canonical_title(s) == fallback_title(s),
{
}

/// The letters and spaces of `s`, in order.
fn word_chars(s: &Vec<TitleChar>) -> (r: Vec<TitleChar>)
    ensures
        r@ == s@.filter(word_pred()),
{
    let mut r: Vec<TitleChar> = Vec::new();
    let mut i: usize = 0;
    proof {
        reveal_with_fuel(Seq::filter, 1);
    }
    assert(s@.take(0) == Seq::<TitleChar>::empty());
    while i < s.len()
        invariant
            i <= s.len(),
            r@ == s@.take(i as int).filter(word_pred()),
        decreases s.len() - i,
    {
        let t = s[i];
        assert(s@.take(i + 1).drop_last() == s@.take(i as int));
        assert(s@.take(i + 1).last() == t);
        proof {
            reveal_with_fuel(Seq::filter, 1);
        }
        if t.alphabetic || t.whitespace {
            r.push(t);
        }
        i = i + 1;
    }
    assert(s@.take(s.len() as int) == s@);
    r
}

/// Whether the characters of `pat` occur in `s` from position `i` on.
fn occurs_in_title(s: &Vec<TitleChar>, pat: &Vec<char>, i: usize) -> (r: bool)
    requires
        i <= s.len(),
    ensures
        r == occurs_at(plain(s@.skip(i as int)), pat@, 0),
{
    let ghost rest = plain(s@.skip(i as int));
    if pat.len() > s.len() - i {
        return false;
    }
    let mut k: usize = 0;
    while k < pat.len()
        invariant
            k <= pat.len(),
            i + pat.len() <= s.len(),
            rest == plain(s@.skip(i as int)),
            forall|j: int| 0 <= j < k ==> rest[j] == pat@[j],
        decreases pat.len() - k,
    {
        assert(rest[k as int] == s@[i + k].ch);
        if s[i + k].ch != pat[k] {
            assert(rest.subrange(0, pat.len() as int)[k as int] != pat@[k as int]);
            return false;
        }
        k = k + 1;
    }
    assert(rest.subrange(0, pat.len() as int) == pat@);
    true
}

/// `s` with every occurrence of `pat` removed, as `delete_all` states it.
fn delete_all_of(s: &Vec<TitleChar>, pat: &str) -> (r: Vec<TitleChar>)
    ensures
        r@ == delete_all(s@, pat@),
{
    let p = chars_of(pat);
    let mut r: Vec<TitleChar> = Vec::new();
    let mut i: usize = 0;
    assert(s@.skip(0) == s@);
    while i < s.len()
        invariant
            i <= s.len(),
            p@ == pat@,
            r@ + delete_all(s@.skip(i as int), p@) == delete_all(s@, p@),
        decreases s.len() - i,
    {
        let ghost rest = s@.skip(i as int);
        if p.len() > 0 && occurs_in_title(s, &p, i) {
            assert(rest.skip(p.len() as int) == s@.skip(i + p.len()));
            i = i + p.len();
        } else {
            assert(rest.drop_first() == s@.skip(i + 1));
            assert(rest[0] == s@[i as int]);
            r.push(s[i]);
            assert(r@ + delete_all(s@.skip(i + 1), p@) == (r@.drop_last() + seq![s@[i as int]])
                + delete_all(s@.skip(i + 1), p@));
            i = i + 1;
        }
    }
    assert(s@.skip(i as int).len() == 0);
    assert(r@ + delete_all(s@.skip(i as int), p@) == r@);
    r
}

/// The number of leading whitespace characters of `s`.
fn leading_whitespace(s: &Vec<TitleChar>) -> (lo: usize)
    ensures
        lo <= s.len(),
        trim_start_flags(s@) == s@.skip(lo as int),
{
    let mut lo: usize = 0;
    assert(s@.skip(0) == s@);
    while lo < s.len() && s[lo].whitespace
        invariant
            lo <= s.len(),
            trim_start_flags(s@) == trim_start_flags(s@.skip(lo as int)),
        decreases s.len() - lo,
    {
        assert(s@.skip(lo as int).drop_first() == s@.skip(lo + 1));
        lo = lo + 1;
    }
    lo
}

/// The end of `s` before its trailing whitespace, not going below `lo`.
fn trailing_whitespace_start(s: &Vec<TitleChar>, lo: usize) -> (hi: usize)
    requires
        lo <= s.len(),
    ensures
        lo <= hi <= s.len(),
        trim_end_flags(s@.skip(lo as int)) == s@.subrange(lo as int, hi as int),
{
    let mut hi: usize = s.len();
    assert(s@.skip(lo as int) == s@.subrange(lo as int, hi as int));
    while hi > lo && s[hi - 1].whitespace
        invariant
            lo <= hi <= s.len(),
            trim_end_flags(s@.skip(lo as int)) == trim_end_flags(s@.subrange(lo as int, hi as int)),
        decreases hi,
    {
        assert(s@.subrange(lo as int, hi as int).drop_last() == s@.subrange(lo as int, hi - 1));
        hi = hi - 1;
    }
    hi
}

/// `s` without leading and trailing whitespace.
fn trim_flags(s: &Vec<TitleChar>) -> (r: Vec<TitleChar>)
    ensures
        r@ == trim_end_flags(trim_start_flags(s@)),
{
    let lo = leading_whitespace(s);
    let hi = trailing_whitespace_start(s, lo);
    let mut r: Vec<TitleChar> = Vec::new();
    let mut i: usize = lo;
    while i < hi
        invariant
            lo <= i <= hi <= s.len(),
            r@ == s@.subrange(lo as int, i as int),
        decreases hi - i,
    {
        r.push(s[i]);
        assert(s@.subrange(lo as int, i + 1) == s@.subrange(lo as int, i as int).push(s@[i as int]));
        i = i + 1;
    }
    r
}

/// The title of `fallback_title`.
fn fallback_title_of(s: &Vec<TitleChar>) -> (r: String)
    ensures
        r@ == fallback_title(s@),
{
    let words = word_chars(s);
    let a = delete_all_of(&words, " сезон ");
    let b = delete_all_of(&a, "серія");
    let c = delete_all_of(&b, "українською");
    let t = trim_flags(&c);
    let p = plain_chars(&t);
    string_of(&p)
}

/// The series title under which a heading is filed.
pub fn canonical_title_of(s: &Vec<TitleChar>) -> (r: String)
    ensures
        r@ == canonical_title(s@),
{
    let t = plain_chars(s);
    if contains_str(&t, "Губка Боб") || contains_str(&t, "ГУБКА БОБ") {
        string_of(&chars_of("Губка Боб"))
    } else if contains_str(&t, "Сімпсони") || contains_str(&t, "Сімпсон") {
        string_of(&chars_of("Сімпсони"))
    } else if contains_str(&t, "Гріфіни") {
        string_of(&chars_of("Гріфіни"))
    } else if contains_str(&t, "Готель Хазбін") {
        string_of(&chars_of("Готель Хазбін"))
    } else if contains_str(&t, "Дунканвілл") || contains_str(&t, "Дунканвілль") {
        string_of(&chars_of("Дунканвілль"))
    } else if contains_str(&t, "БоДжек") {
        string_of(&chars_of("Кінь БоДжек"))
    } else if contains_str(&t, "Ґравіті Фолз") {
        string_of(&chars_of("Ґравіті Фолз"))
    } else if contains_str(&t, "Південний Парк") || contains_str(&t, "Картманові") || contains_str(&t, "Саус Парку") {
        string_of(&chars_of("Південний Парк"))
    } else if contains_str(&t, "Зім") {
        string_of(&chars_of("Завойовник Зім"))
    } else if contains_str(&t, "Роко") || contains_str(&t, "Сучасне Рокове Життя") || contains_str(&t, "Сучасне рокове життя") {
        string_of(&chars_of("Сучасне Рокове Життя"))
    } else if contains_str(&t, "Футурама") {
        string_of(&chars_of("Футурама"))
    } else {
        fallback_title_of(s)
    }
}

/// Season number, episode number and series title of a classified heading;
/// `None` where one of its first two numbers is not a `u8` in ASCII digits.
pub fn parse_episode_title(s: &Vec<TitleChar>) -> (r: Option<(u8, u8, String)>)
    ensures
        match title_numbers(s@) {
            Some(n) => r matches Some(x) && x.0 == n.0 && x.1 == n.1 && x.2@ == canonical_title(s@),
            None => r is None,
        },
{
    match title_numbers_of(s) {
        Some((season, seria)) => Some((season, seria, canonical_title_of(s))),
        None => None,
    }
}

} // verus!
