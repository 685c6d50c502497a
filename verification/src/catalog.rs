//! Browsing the catalogue: the menu of cartoon titles, the seasons of a
//! chosen title and the episodes of a chosen season.
use vstd::prelude::*;
use crate::config::{is_cartoon, Cartoon, Category};
use crate::text::{chars_of, compare_chars, lex_lt, lemma_lex_transitive, LexOrder};

verus! {

// ---------------------------------------------------------------------------
// Titles
// ---------------------------------------------------------------------------

/// The titles of the entries of category `Cartoon`.
pub open spec fn cartoon_titles(cs: Seq<Cartoon>) -> Set<Seq<char>> {
    Set::new(
        |t: Seq<char>|
            exists|i: int| 0 <= i < cs.len() && cs[i].category == Category::Cartoon && cs[i].title@ == t,
    )
}

/// Each string sorts strictly before the ones after it (so none occurs twice).
pub open spec fn strictly_sorted(s: Seq<Seq<char>>) -> bool {
    forall|i: int, j: int| 0 <= i < j < s.len() ==> lex_lt(#[trigger] s[i], #[trigger] s[j])
}

/// The titles of a numbered title list, in order.
pub open spec fn listed_titles(v: Seq<(usize, String)>) -> Seq<Seq<char>> {
    v.map_values(|e: (usize, String)| e.1@)
}

spec fn key_views(v: Seq<Vec<char>>) -> Seq<Seq<char>> {
    v.map_values(|k: Vec<char>| k@)
}

proof fn lemma_insert_sorted(s: Seq<Seq<char>>, p: int, x: Seq<char>)
    requires
        strictly_sorted(s),
        0 <= p <= s.len(),
        forall|q: int| 0 <= q < p ==> lex_lt(#[trigger] s[q], x),
        p < s.len() ==> lex_lt(x, s[p]),
    ensures
        strictly_sorted(s.insert(p, x)),
{
    let t = s.insert(p, x);
    assert forall|i: int, j: int| 0 <= i < j < t.len() implies lex_lt(#[trigger] t[i], #[trigger] t[j]) by {
        if j < p {
            assert(t[i] == s[i] && t[j] == s[j]);
        } else if j == p {
            assert(t[i] == s[i]);
        } else if i < p {
            assert(t[i] == s[i] && t[j] == s[j - 1]);
            if p < j - 1 {
                assert(lex_lt(s[p], s[j - 1]));
            }
            lemma_lex_transitive(s[i], x, s[p]);
            if p < j - 1 {
                lemma_lex_transitive(s[i], s[p], s[j - 1]);
            }
        } else if i == p {
            assert(t[j] == s[j - 1]);
            if p < j - 1 {
                lemma_lex_transitive(x, s[p], s[j - 1]);
            }
        } else {
            assert(t[i] == s[i - 1] && t[j] == s[j - 1]);
        }
    }
}

proof fn lemma_titles_step(cs: Seq<Cartoon>, j: int)
    requires
        0 <= j < cs.len(),
    ensures
        forall|t: Seq<char>|
            #[trigger] cartoon_titles(cs.take(j + 1)).contains(t) <==> (cartoon_titles(
                cs.take(j),
            ).contains(t) || (cs[j].category == Category::Cartoon && cs[j].title@ == t)),
{
    let pre = cs.take(j);
    let post = cs.take(j + 1);
    assert forall|t: Seq<char>|
        #[trigger] cartoon_titles(post).contains(t) <==> (cartoon_titles(pre).contains(t) || (
        cs[j].category == Category::Cartoon && cs[j].title@ == t)) by {
        if cartoon_titles(post).contains(t) {
            let i = choose|i: int|
                0 <= i < post.len() && (#[trigger] post[i]).category == Category::Cartoon
                    && post[i].title@ == t;
            if i < j {
                assert(pre[i] == post[i]);
            }
        }
        if cartoon_titles(pre).contains(t) {
            let i = choose|i: int|
                0 <= i < pre.len() && (#[trigger] pre[i]).category == Category::Cartoon
                    && pre[i].title@ == t;
            assert(post[i] == pre[i]);
        }
        if cs[j].category == Category::Cartoon && cs[j].title@ == t {
            assert(post[j] == cs[j]);
        }
    }
}

/// The distinct titles of the entries of category `Cartoon`, in sorted
/// order, each with its position in the list.
pub fn unique_titles(cartoons: &Vec<Cartoon>) -> (r: Vec<(usize, String)>)
    ensures
        forall|i: int| 0 <= i < r.len() ==> (#[trigger] r@[i]).0 == i,
        strictly_sorted(listed_titles(r@)),
        listed_titles(r@).to_set() == cartoon_titles(cartoons@),
{
    let mut keys: Vec<Vec<char>> = Vec::new();
    let mut titles: Vec<String> = Vec::new();
    let mut j: usize = 0;
    while j < cartoons.len()
        invariant
            j <= cartoons.len(),
            keys.len() == titles.len(),
            forall|k: int| 0 <= k < keys.len() ==> (#[trigger] keys@[k])@ == titles@[k]@,
            strictly_sorted(key_views(keys@)),
            forall|t: Seq<char>|
                key_views(keys@).contains(t) <==> cartoon_titles(cartoons@.take(j as int)).contains(
                    t,
                ),
        decreases cartoons.len() - j,
    {
        let ghost before = key_views(keys@);
        let c = &cartoons[j];
        proof {
            lemma_titles_step(cartoons@, j as int);
        }
        if is_cartoon(c.category) {
            let k = chars_of(c.title.as_str());
            let mut p: usize = 0;
            let mut found = false;
            let mut greater = false;
            while p < keys.len() && !greater && !found
                invariant
                    p <= keys.len(),
                    before == key_views(keys@),
                    forall|q: int| 0 <= q < p ==> lex_lt(#[trigger] before[q], k@),
                    found ==> p < keys.len() && before[p as int] == k@,
                    greater ==> !found && p < keys.len() && lex_lt(k@, before[p as int]),
                decreases keys.len() - p + (if greater || found { 0int } else { 1int }),
            {
                match compare_chars(&keys[p], &k) {
                    LexOrder::Less => {
                        p = p + 1;
                    },
                    LexOrder::Equal => {
                        found = true;
                    },
                    LexOrder::Greater => {
                        greater = true;
                    },
                }
            }
            if found {
                assert(before.contains(k@));
                assert forall|t: Seq<char>|
                    key_views(keys@).contains(t) <==> cartoon_titles(
                        cartoons@.take(j + 1),
                    ).contains(t) by {
                }
            } else {
                let title = c.title.clone();
                let ghost old_keys = keys@;
                let ghost old_titles = titles@;
                keys.insert(p, k);
                titles.insert(p, title);
                proof {
                    assert(key_views(keys@) == before.insert(p as int, k@));
                    lemma_insert_sorted(before, p as int, k@);
                    assert forall|m: int| 0 <= m < keys.len() implies (#[trigger] keys@[m])@
                        == titles@[m]@ by {
                        if m < p {
                            assert(keys@[m] == old_keys[m] && titles@[m] == old_titles[m]);
                        } else if m > p {
                            assert(keys@[m] == old_keys[m - 1] && titles@[m] == old_titles[m - 1]);
                        }
                    }
                    assert forall|t: Seq<char>|
                        key_views(keys@).contains(t) <==> cartoon_titles(
                            cartoons@.take(j + 1),
                        ).contains(t) by {
                        let now = key_views(keys@);
                        if t == k@ {
                            assert(now[p as int] == k@);
                        } else {
                            if before.contains(t) {
                                let q = choose|q: int| 0 <= q < before.len() && before[q] == t;
                                if q < p {
                                    assert(now[q] == t);
                                } else {
                                    assert(now[q + 1] == t);
                                }
                            }
                            if now.contains(t) {
                                let q = choose|q: int| 0 <= q < now.len() && now[q] == t;
                                if q < p {
                                    assert(before[q] == t);
                                } else if q > p {
                                    assert(before[q - 1] == t);
                                }
                            }
                        }
                    }
                }
            }
        } else {
            assert forall|t: Seq<char>|
                key_views(keys@).contains(t) <==> cartoon_titles(cartoons@.take(j + 1)).contains(
                    t,
                ) by {
            }
        }
        j = j + 1;
    }
    assert(cartoons@.take(cartoons.len() as int) == cartoons@);
    let mut r: Vec<(usize, String)> = Vec::new();
    let mut i: usize = 0;
    while i < titles.len()
        invariant
            i <= titles.len(),
            keys.len() == titles.len(),
            r.len() == i,
            forall|m: int| 0 <= m < i ==> (#[trigger] r@[m]).0 == m,
            forall|m: int| 0 <= m < i ==> (#[trigger] r@[m]).1@ == titles@[m]@,
        decreases titles.len() - i,
    {
        let t = titles[i].clone();
        r.push((i, t));
        i = i + 1;
    }
    proof {
        assert(listed_titles(r@) == key_views(keys@));
        assert(listed_titles(r@).to_set() == cartoon_titles(cartoons@));
    }
    r
}

// ---------------------------------------------------------------------------
// Seasons
// ---------------------------------------------------------------------------

/// The title at menu number `parsed_index` (numbered from 1), if there is one.
pub open spec fn chosen_title(indexed: Seq<(usize, String)>, parsed_index: usize) -> Option<
    Seq<char>,
> {
    if 1 <= parsed_index <= indexed.len() {
        Some(indexed[parsed_index - 1].1@)
    } else {
        None
    }
}

/// Some entry has title `title` and season `season`.
pub open spec fn has_season(cs: Seq<Cartoon>, title: Seq<char>, season: u8) -> bool {
    exists|i: int| 0 <= i < cs.len() && cs[i].title@ == title && cs[i].season == Some(season)
}

pub open spec fn season_pred(cs: Seq<Cartoon>, title: Seq<char>) -> spec_fn(u8) -> bool {
    |season: u8| has_season(cs, title, season)
}

/// Every `u8`, in increasing order.
pub open spec fn all_seasons() -> Seq<u8> {
    Seq::new(256, |k: int| k as u8)
}

/// The seasons of the entries titled `title`, each once, in increasing order.
pub open spec fn season_list(cs: Seq<Cartoon>, title: Seq<char>) -> Seq<u8> {
    all_seasons().filter(season_pred(cs, title))
}

/// Whether some entry has title `title` and season `season`.
fn season_occurs(cartoons: &Vec<Cartoon>, title: &String, season: u8) -> (r: bool)
    ensures
        r == has_season(cartoons@, title@, season),
{
    let mut i: usize = 0;
    while i < cartoons.len()
        invariant
            i <= cartoons.len(),
            forall|m: int|
                0 <= m < i ==> !((#[trigger] cartoons@[m]).title@ == title@ && cartoons@[m].season
                    == Some(season)),
        decreases cartoons.len() - i,
    {
        let c = &cartoons[i];
        if c.title == *title {
            match c.season {
                Some(s) => {
                    if s == season {
                        return true;
                    }
                },
                None => {},
            }
        }
        i = i + 1;
    }
    false
}

/// The seasons of the title at menu number `parsed_index` (numbered from 1):
/// each season that some entry of that title has, once, in increasing
/// order; nothing where no title has that number.
pub fn seasons(parsed_index: usize, indexed: &Vec<(usize, String)>, cartoons: &Vec<Cartoon>) -> (r:
    Vec<u8>)
    requires
        parsed_index >= 1,
    ensures
        r@ == match chosen_title(indexed@, parsed_index) {
            Some(t) => season_list(cartoons@, t),
            None => Seq::<u8>::empty(),
        },
{
    if parsed_index - 1 < indexed.len() {
        let chosen = &indexed[parsed_index - 1].1;
        let ghost pred = season_pred(cartoons@, chosen@);
        let mut r: Vec<u8> = Vec::new();
        let mut k: usize = 0;
        assert(all_seasons().take(0) == Seq::<u8>::empty());
        proof {
            reveal_with_fuel(Seq::filter, 1);
        }
        while k < 256
            invariant
                k <= 256,
                pred == season_pred(cartoons@, chosen@),
                r@ == all_seasons().take(k as int).filter(pred),
            decreases 256 - k,
        {
            let ghost prefix = all_seasons().take(k + 1);
            assert(prefix.drop_last() == all_seasons().take(k as int));
            assert(prefix.last() == k as u8);
            proof {
                reveal_with_fuel(Seq::filter, 1);
            }
            if season_occurs(cartoons, chosen, k as u8) {
                r.push(k as u8);
            }
            k = k + 1;
        }
        assert(all_seasons().take(256) == all_seasons());
        r
    } else {
        Vec::new()
    }
}

proof fn lemma_filter_increasing(s: Seq<u8>, pred: spec_fn(u8) -> bool)
    requires
        forall|i: int, j: int| 0 <= i < j < s.len() ==> s[i] < s[j],
    ensures
        forall|i: int, j: int|
            0 <= i < j < s.filter(pred).len() ==> s.filter(pred)[i] < s.filter(pred)[j],
        forall|x: u8| #[trigger] s.filter(pred).contains(x) <==> (s.contains(x) && pred(x)),
    decreases s.len(),
{
    reveal_with_fuel(Seq::filter, 1);
    if s.len() > 0 {
        let init = s.drop_last();
        lemma_filter_increasing(init, pred);
        let f0 = init.filter(pred);
        assert forall|x: u8| s.contains(x) <==> (init.contains(x) || x == s.last()) by {
            if s.contains(x) {
                let i = choose|i: int| 0 <= i < s.len() && s[i] == x;
                if i < s.len() - 1 {
                    assert(init[i] == x);
                }
            }
            if init.contains(x) {
                let i = choose|i: int| 0 <= i < init.len() && init[i] == x;
                assert(s[i] == x);
            }
        }
        assert forall|i: int| 0 <= i < f0.len() implies f0[i] < s.last() by {
            assert(f0.contains(f0[i]));
            assert(init.contains(f0[i]));
            let m = choose|m: int| 0 <= m < init.len() && init[m] == f0[i];
            assert(s[m] == init[m]);
        }
        if pred(s.last()) {
            assert(s.filter(pred) == f0.push(s.last()));
            assert forall|x: u8| f0.push(s.last()).contains(x) <==> (f0.contains(x) || x
                == s.last()) by {
                if f0.push(s.last()).contains(x) {
                    let i = choose|i: int| 0 <= i < f0.len() + 1 && f0.push(s.last())[i] == x;
                    if i < f0.len() {
                        assert(f0[i] == x);
                    }
                }
                if f0.contains(x) {
                    let i = choose|i: int| 0 <= i < f0.len() && f0[i] == x;
                    assert(f0.push(s.last())[i] == x);
                }
                if x == s.last() {
                    assert(f0.push(s.last())[f0.len() as int] == x);
                }
            }
        } else {
            assert(s.filter(pred) == f0);
        }
        assert forall|x: u8| #[trigger] s.filter(pred).contains(x) <==> (s.contains(x) && pred(x)) by {
            if pred(s.last()) {
                assert(f0.push(s.last()).contains(x) <==> (f0.contains(x) || x == s.last()));
            }
            assert(f0.contains(x) <==> (init.contains(x) && pred(x)));
        }
    } else {
        assert(s.filter(pred) == s);
    }
}

/// The season list of a title holds each season of that title exactly once,
/// in increasing order, and nothing else.
pub proof fn lemma_season_list(cs: Seq<Cartoon>, title: Seq<char>)
    ensures
        forall|i: int, j: int|
            0 <= i < j < season_list(cs, title).len() ==> season_list(cs, title)[i] < season_list(
                cs,
                title,
            )[j],
        forall|s: u8| season_list(cs, title).contains(s) <==> has_season(cs, title, s),
        forall|s: u8|
            #![trigger season_list(cs, title).contains(s)]
            season_list(cs, title).contains(s) <==> exists|i: int|
                0 <= i < cs.len() && (#[trigger] cs[i]).title@ == title && cs[i].season == Some(s),
{
    let all = all_seasons();
    assert forall|i: int, j: int| 0 <= i < j < all.len() implies all[i] < all[j] by {
    }
    lemma_filter_increasing(all, season_pred(cs, title));
    assert forall|s: u8| season_list(cs, title).contains(s) <==> has_season(cs, title, s) by {
        assert(all[s as int] == s);
        assert(all.contains(s));
        assert(all.filter(season_pred(cs, title)).contains(s) <==> (all.contains(s) && season_pred(
            cs,
            title,
        )(s)));
    }    assert forall|s: u8|
        #![trigger season_list(cs, title).contains(s)]
        season_list(cs, title).contains(s) <==> exists|i: int|
            0 <= i < cs.len() && (#[trigger] cs[i]).title@ == title && cs[i].season == Some(s) by {
        assert(season_list(cs, title).contains(s) <==> has_season(cs, title, s));
    }
}

// ---------------------------------------------------------------------------
// Episodes
// ---------------------------------------------------------------------------

/// The episode menu entry of `c`: its episode number, its episode title (empty
/// where it has none) and its stream address.
pub open spec fn episode_view(c: Cartoon) -> (u8, Seq<char>, Seq<char>) {
    (
        c.seria->0,
        match c.seria_title {
            Some(t) => t@,
            None => Seq::<char>::empty(),
        },
        c.stream@,
    )
}

pub open spec fn episode_pred(title: Seq<char>, season: u8) -> spec_fn(Cartoon) -> bool {
    |c: Cartoon| c.title@ == title && c.season == Some(season)
}

/// The entries of title `title` and season `season`, in catalogue order, as
/// episode menu entries.
pub open spec fn episode_list(cs: Seq<Cartoon>, title: Seq<char>, season: u8) -> Seq<
    (u8, Seq<char>, Seq<char>),
> {
    cs.filter(episode_pred(title, season)).map_values(|c: Cartoon| episode_view(c))
}

/// The episode menu entries of a list of (number, title, stream) triples.
pub open spec fn listed_episodes(v: Seq<(u8, String, String)>) -> Seq<(u8, Seq<char>, Seq<char>)> {
    v.map_values(|e: (u8, String, String)| (e.0, e.1@, e.2@))
}

pub open spec fn numbered(k: u8) -> spec_fn((u8, Seq<char>, Seq<char>)) -> bool {
    |e: (u8, Seq<char>, Seq<char>)| e.0 == k
}

/// The entries are in order of episode number.
pub open spec fn sorted_by_number(v: Seq<(u8, Seq<char>, Seq<char>)>) -> bool {
    forall|i: int, j: int| 0 <= i < j < v.len() ==> (#[trigger] v[i]).0 <= (#[trigger] v[j]).0
}

/// `v` is `e` sorted by episode number, where entries with the same number
/// keep their order in `e` (what a stable sort by the number gives).
pub open spec fn stable_sorted_by_number(
    v: Seq<(u8, Seq<char>, Seq<char>)>,
    e: Seq<(u8, Seq<char>, Seq<char>)>,
) -> bool {
    &&& sorted_by_number(v)
    &&& forall|k: u8| #[trigger] v.filter(numbered(k)) == e.filter(numbered(k))
}

proof fn lemma_filter_none<A>(s: Seq<A>, pred: spec_fn(A) -> bool)
    requires
        forall|i: int| 0 <= i < s.len() ==> !pred(#[trigger] s[i]),
    ensures
        s.filter(pred) == Seq::<A>::empty(),
    decreases s.len(),
{
    reveal_with_fuel(Seq::filter, 1);
    if s.len() > 0 {
        let init = s.drop_last();
        assert forall|i: int| 0 <= i < init.len() implies !pred(#[trigger] init[i]) by {
            assert(init[i] == s[i]);
        }
        lemma_filter_none(init, pred);
    }
}

proof fn lemma_filter_push<A>(s: Seq<A>, x: A, pred: spec_fn(A) -> bool)
    ensures
        s.push(x).filter(pred) == (if pred(x) {
            s.filter(pred).push(x)
        } else {
            s.filter(pred)
        }),
{
    reveal_with_fuel(Seq::filter, 1);
    assert(s.push(x).drop_last() == s);
}

proof fn lemma_insert_by_number(v: Seq<(u8, Seq<char>, Seq<char>)>, p: int, x: (
    u8,
    Seq<char>,
    Seq<char>,
))
    requires
        sorted_by_number(v),
        0 <= p <= v.len(),
        forall|q: int| 0 <= q < p ==> (#[trigger] v[q]).0 <= x.0,
        forall|q: int| p <= q < v.len() ==> (#[trigger] v[q]).0 > x.0,
    ensures
        sorted_by_number(v.insert(p, x)),
        forall|k: u8|
            #[trigger] v.insert(p, x).filter(numbered(k)) == (if k == x.0 {
                v.filter(numbered(k)).push(x)
            } else {
                v.filter(numbered(k))
            }),
{
    let w = v.insert(p, x);
    assert forall|i: int, j: int| 0 <= i < j < w.len() implies (#[trigger] w[i]).0 <= (
    #[trigger] w[j]).0 by {
        if j < p {
            assert(w[i] == v[i] && w[j] == v[j]);
        } else if j == p {
            assert(w[i] == v[i]);
        } else if i < p {
            assert(w[i] == v[i] && w[j] == v[j - 1]);
        } else if i == p {
            assert(w[j] == v[j - 1]);
        } else {
            assert(w[i] == v[i - 1] && w[j] == v[j - 1]);
        }
    }
    let front = v.take(p);
    let back = v.skip(p);
    assert(v == front + back);
    assert(w == front + (seq![x] + back));
    assert forall|k: u8|
        #[trigger] v.insert(p, x).filter(numbered(k)) == (if k == x.0 {
            v.filter(numbered(k)).push(x)
        } else {
            v.filter(numbered(k))
        }) by {
        let q = numbered(k);
        Seq::filter_distributes_over_add(front, back, q);
        Seq::filter_distributes_over_add(front, seq![x] + back, q);
        Seq::filter_distributes_over_add(seq![x], back, q);
        lemma_filter_push(Seq::<(u8, Seq<char>, Seq<char>)>::empty(), x, q);
        assert(Seq::<(u8, Seq<char>, Seq<char>)>::empty().push(x) == seq![x]);
        reveal_with_fuel(Seq::filter, 1);
        if k == x.0 {
            assert forall|i: int| 0 <= i < back.len() implies !q(#[trigger] back[i]) by {
                assert(back[i] == v[p + i]);
            }
            lemma_filter_none(back, q);
            assert(front.filter(q) + seq![x] == front.filter(q).push(x));
            assert(front.filter(q) + back.filter(q) == front.filter(q));
        } else {
            assert(seq![x].filter(q) == Seq::<(u8, Seq<char>, Seq<char>)>::empty());
            assert(Seq::<(u8, Seq<char>, Seq<char>)>::empty() + back.filter(q) == back.filter(q));
        }
    }
}

/// The episodes of the season at menu number `parsed_season_index` of the
/// title at menu number `parsed_index` (both numbered from 1), as (episode
/// number, episode title or "", stream address), sorted by episode number,
/// where episodes with the same number keep their catalogue order; nothing
/// where no title has that number.
pub fn serias(
    parsed_index: usize,
    parsed_season_index: usize,
    indexed: &Vec<(usize, String)>,
    cartoons: &Vec<Cartoon>,
) -> (r: Vec<(u8, String, String)>)
    requires
        parsed_index >= 1,
        chosen_title(indexed@, parsed_index) matches Some(t) ==> {
            &&& 1 <= parsed_season_index <= season_list(cartoons@, t).len()
            &&& forall|i: int|
                0 <= i < cartoons.len() && episode_pred(
                    t,
                    season_list(cartoons@, t)[parsed_season_index - 1],
                )(#[trigger] cartoons@[i]) ==> cartoons@[i].seria is Some
        },
    ensures
        match chosen_title(indexed@, parsed_index) {
            Some(t) => stable_sorted_by_number(
                listed_episodes(r@),
                episode_list(cartoons@, t, season_list(cartoons@, t)[parsed_season_index - 1]),
            ),
            None => r@.len() == 0,
        },
{
    if parsed_index - 1 < indexed.len() {
        let chosen = &indexed[parsed_index - 1].1;
        let all = seasons(parsed_index, indexed, cartoons);
        let chosen_season = all[parsed_season_index - 1];
        let ghost pred = episode_pred(chosen@, chosen_season);
        let mut r: Vec<(u8, String, String)> = Vec::new();
        let mut j: usize = 0;
        assert(cartoons@.take(0) == Seq::<Cartoon>::empty());
        proof {
            reveal_with_fuel(Seq::filter, 1);
        }
        while j < cartoons.len()
            invariant
                j <= cartoons.len(),
                pred == episode_pred(chosen@, chosen_season),
                forall|i: int|
                    0 <= i < cartoons.len() && pred(#[trigger] cartoons@[i])
                        ==> cartoons@[i].seria is Some,
                sorted_by_number(listed_episodes(r@)),
                forall|k: u8|
                    #[trigger] listed_episodes(r@).filter(numbered(k)) == episode_list(
                        cartoons@.take(j as int),
                        chosen@,
                        chosen_season,
                    ).filter(numbered(k)),
            decreases cartoons.len() - j,
        {
            let c = &cartoons[j];
            let ghost before = listed_episodes(r@);
            let ghost prefix = cartoons@.take(j as int);
            proof {
                assert(cartoons@.take(j + 1) == prefix.push(cartoons@[j as int]));
                lemma_filter_push(prefix, cartoons@[j as int], pred);
            }
            let mut wanted = false;
            if c.title == *chosen {
                match c.season {
                    Some(s) => {
                        wanted = s == chosen_season;
                    },
                    None => {},
                }
            }
            assert(wanted == pred(cartoons@[j as int]));
            if wanted {
                let num = c.seria.unwrap();
                let name = match &c.seria_title {
                    Some(t) => t.clone(),
                    None => String::new(),
                };
                let entry = (num, name, c.stream.clone());
                let ghost x = (entry.0, entry.1@, entry.2@);
                assert(x == episode_view(cartoons@[j as int]));
                let mut p: usize = 0;
                while p < r.len() && r[p].0 <= num
                    invariant
                        p <= r.len(),
                        before == listed_episodes(r@),
                        forall|q: int| 0 <= q < p ==> (#[trigger] before[q]).0 <= num,
                    decreases r.len() - p,
                {
                    p = p + 1;
                }
                assert forall|q: int| p <= q < before.len() implies (#[trigger] before[q]).0
                    > num by {
                    if p < q {
                        assert(before[p as int].0 <= before[q].0);
                    }
                }
                r.insert(p, entry);
                proof {
                    assert(listed_episodes(r@) == before.insert(p as int, x));
                    lemma_insert_by_number(before, p as int, x);
                    let old_list = prefix.filter(pred).map_values(|c: Cartoon| episode_view(c));
                    assert(cartoons@.take(j + 1).filter(pred).map_values(
                        |c: Cartoon| episode_view(c),
                    ) == old_list.push(x));
                    assert forall|k: u8|
                        #[trigger] listed_episodes(r@).filter(numbered(k)) == episode_list(
                            cartoons@.take(j + 1),
                            chosen@,
                            chosen_season,
                        ).filter(numbered(k)) by {
                        lemma_filter_push(old_list, x, numbered(k));
                        assert(before.insert(p as int, x).filter(numbered(k)) == (if k == x.0 {
                            before.filter(numbered(k)).push(x)
                        } else {
                            before.filter(numbered(k))
                        }));
                    }
                }
            }
            j = j + 1;
        }
        assert(cartoons@.take(cartoons.len() as int) == cartoons@);
        r
    } else {
        Vec::new()
    }
}

/// A season picked from the season menu of a title always has episodes: the
/// episode menu that follows it is never empty.
pub proof fn lemma_chosen_season_has_episodes(
    cs: Seq<Cartoon>,
    indexed: Seq<(usize, String)>,
    parsed_index: usize,
    parsed_season_index: usize,
)
    requires
        chosen_title(indexed, parsed_index) is Some,
        1 <= parsed_season_index <= season_list(cs, chosen_title(indexed, parsed_index)->0).len(),
    ensures
        episode_list(
            cs,
            chosen_title(indexed, parsed_index)->0,
            season_list(cs, chosen_title(indexed, parsed_index)->0)[parsed_season_index - 1],
        ).len() > 0,
{
    let t = chosen_title(indexed, parsed_index)->0;
    let list = season_list(cs, t);
    let season = list[parsed_season_index - 1];
    lemma_season_list(cs, t);
    assert(list.contains(season));
    let i = choose|i: int| 0 <= i < cs.len() && cs[i].title@ == t && cs[i].season == Some(season);
    assert(episode_pred(t, season)(cs[i]));
    broadcast use Seq::lemma_filter_contains;
    assert(cs.filter(episode_pred(t, season)).contains(cs[i]));
}

proof fn lemma_count_in_key_filter(s: Seq<(u8, Seq<char>, Seq<char>)>, x: (u8, Seq<char>, Seq<char>))
    ensures
        s.to_multiset().count(x) == s.filter(numbered(x.0)).to_multiset().count(x),
    decreases s.len(),
{
    broadcast use vstd::seq_lib::group_to_multiset_ensures;
    broadcast use vstd::multiset::group_multiset_axioms;

    if s.len() == 0 {
        reveal_with_fuel(Seq::filter, 1);
    } else {
        let init = s.drop_last();
        let y = s.last();
        lemma_count_in_key_filter(init, x);
        assert(s == init.push(y));
        lemma_filter_push(init, y, numbered(x.0));
    }
}

/// Sorting the episodes keeps each of them, as often as it occurs: the
/// episode menu is a rearrangement of the episodes of the season.
pub proof fn lemma_stable_sort_keeps_episodes(
    v: Seq<(u8, Seq<char>, Seq<char>)>,
    e: Seq<(u8, Seq<char>, Seq<char>)>,
)
    requires
        stable_sorted_by_number(v, e),
    ensures
        v.to_multiset() == e.to_multiset(),
{
    assert forall|x: (u8, Seq<char>, Seq<char>)| v.to_multiset().count(x) == e.to_multiset().count(
        x,
    ) by {
        lemma_count_in_key_filter(v, x);
        lemma_count_in_key_filter(e, x);
        assert(v.filter(numbered(x.0)) == e.filter(numbered(x.0)));
    }
    assert(v.to_multiset() =~= e.to_multiset());
}

/// A title is in the title menu exactly when some entry of category
/// `Cartoon` carries it.
pub proof fn lemma_cartoon_titles(cs: Seq<Cartoon>, t: Seq<char>)
    ensures
        cartoon_titles(cs).contains(t) <==> exists|i: int|
            0 <= i < cs.len() && (#[trigger] cs[i]).category == Category::Cartoon && cs[i].title@
                == t,
{
}

/// No entry, no episodes.
pub proof fn lemma_episode_list_empty(title: Seq<char>, season: u8)
    ensures
        episode_list(Seq::<Cartoon>::empty(), title, season).len() == 0,
{
    reveal_with_fuel(Seq::filter, 1);
}

/// One more entry at the end of the catalogue adds its episode at the end of
/// the episode list when it has the chosen title and season (its number, its
/// episode title or "", its stream), and changes nothing otherwise.
pub proof fn lemma_episode_list_push(cs: Seq<Cartoon>, c: Cartoon, title: Seq<char>, season: u8)
    ensures
        episode_list(cs.push(c), title, season) == (if c.title@ == title && c.season == Some(
            season,
        ) {
            episode_list(cs, title, season).push(
                (
                    c.seria->0,
                    match c.seria_title {
                        Some(t) => t@,
                        None => Seq::<char>::empty(),
                    },
                    c.stream@,
                ),
            )
        } else {
            episode_list(cs, title, season)
        }),
{
    lemma_filter_push(cs, c, episode_pred(title, season));
    let f = cs.filter(episode_pred(title, season));
    assert(f.push(c).map_values(|c: Cartoon| episode_view(c)) == f.map_values(
        |c: Cartoon| episode_view(c),
    ).push(episode_view(c)));
}

/// `numbered(k)` holds of exactly the entries with episode number `k`.
pub proof fn lemma_numbered(k: u8, x: (u8, Seq<char>, Seq<char>))
    ensures
        numbered(k)(x) <==> x.0 == k,
{
}

/// A stable sort by number puts the entries in order of their numbers.
pub proof fn lemma_stable_sort_is_sorted(
    v: Seq<(u8, Seq<char>, Seq<char>)>,
    e: Seq<(u8, Seq<char>, Seq<char>)>,
)
    requires
        stable_sorted_by_number(v, e),
    ensures
        forall|i: int, j: int| 0 <= i < j < v.len() ==> (#[trigger] v[i]).0 <= (#[trigger] v[j]).0,
{
}

/// A stable sort by number keeps, for each number, the entries with that
/// number in the order they had.
pub proof fn lemma_stable_sort_keeps_order_of_equal_numbers(
    v: Seq<(u8, Seq<char>, Seq<char>)>,
    e: Seq<(u8, Seq<char>, Seq<char>)>,
    k: u8,
)
    requires
        stable_sorted_by_number(v, e),
    ensures
        v.filter(|x: (u8, Seq<char>, Seq<char>)| x.0 == k) == e.filter(
            |x: (u8, Seq<char>, Seq<char>)| x.0 == k,
        ),
{
    assert(v.filter(numbered(k)) == e.filter(numbered(k)));
    assert(numbered(k) == (|x: (u8, Seq<char>, Seq<char>)| x.0 == k));
}

/// Menu number `n` (from 1) picks the title on line `n`, and no title where
/// there is no such line.
pub proof fn lemma_chosen_title(indexed: Seq<(usize, String)>, n: usize)
    ensures
        1 <= n <= indexed.len() ==> chosen_title(indexed, n) == Some(indexed[n - 1].1@),
        !(1 <= n <= indexed.len()) ==> chosen_title(indexed, n) is None,
        forall|i: int| 0 <= i < indexed.len() ==> #[trigger] listed_titles(indexed)[i] == indexed[i].1@,
        listed_titles(indexed).len() == indexed.len(),
{
}

/// In a strictly sorted list each string sorts before every later one.
pub proof fn lemma_strictly_sorted(s: Seq<Seq<char>>)
    ensures
        strictly_sorted(s) <==> forall|i: int, j: int|
            0 <= i < j < s.len() ==> lex_lt(#[trigger] s[i], #[trigger] s[j]),
{
}

} // verus!
