//! Collecting the catalogue from the site: reading episode headings and the
//! order in which pages are visited. The pages themselves are fetched by the
//! caller; this module decides what to visit next and what each page adds.
use vstd::prelude::*;
use crate::config::{Cartoon, Category};
use crate::text::{chars_of, string_of};
use crate::title::{
    canonical_title, classify, classify_title, parse_episode_title, title_numbers,
    title_numbers_of,
};

verus! {

impl Cartoon {
    /// Season number, episode number and series title read from the heading
    /// of an episode page. The heading's first two numbers must be `u8`s in
    /// ASCII digits.
    pub fn get_season_and_seria_and_title(title: String) -> (r: (u8, u8, String))
        requires
            title_numbers(classify(title@)) is Some,
        ensures
            title_numbers(classify(title@)) == Some((r.0, r.1)),
            r.2@ == canonical_title(classify(title@)),
    {
        let info = classify_title(title.as_str());
        let parsed = parse_episode_title(&info);
        parsed.unwrap()
    }

    /// As `get_season_and_seria_and_title`, with `None` where one of the
    /// heading's first two numbers is not a `u8` in ASCII digits.
    pub fn try_season_and_seria_and_title(title: &str) -> (r: Option<(u8, u8, String)>)
        ensures
            match title_numbers(classify(title@)) {
                Some(n) => r matches Some(x) && x.0 == n.0 && x.1 == n.1 && x.2@ == canonical_title(
                    classify(title@),
                ),
                None => r is None,
            },
    {
        let info = classify_title(title);
        match title_numbers_of(&info) {
            Some(_) => Some(Cartoon::get_season_and_seria_and_title(string_of(&chars_of(title)))),
            None => None,
        }
    }
}

/// Why an episode page was not added to the catalogue.
#[derive(Debug, Clone, Copy, PartialEq, Eq, Structural)]
pub enum HeadingError {
    /// One of the first two numbers of the heading is not a `u8` in ASCII digits.
    EpisodeNumber,
}

/// The heading text of an episode page: the first text block, or "title"
/// where the page has none.
pub open spec fn heading_text(info: Seq<String>) -> Seq<char> {
    if info.len() > 0 {
        info[0]@
    } else {
        "title"@
    }
}

/// The description of an episode page: the second text block, or
/// "description" where the page has fewer.
pub open spec fn description_text(info: Seq<String>) -> Seq<char> {
    if info.len() > 1 {
        info[1]@
    } else {
        "description"@
    }
}

/// The heading text of an episode page, as `heading_text` gives it.
pub fn heading_of(info: &Vec<String>) -> (r: String)
    ensures
        r@ == heading_text(info@),
{
    if info.len() > 0 {
        info[0].clone()
    } else {
        string_of(&chars_of("title"))
    }
}

/// The description of an episode page, as `description_text` gives it.
pub fn description_of(info: &Vec<String>) -> (r: String)
    ensures
        r@ == description_text(info@),
{
    if info.len() > 1 {
        info[1].clone()
    } else {
        string_of(&chars_of("description"))
    }
}

/// An episode page without text blocks is read under the heading "title",
/// and one with fewer than two under the description "description".
pub proof fn lemma_page_text_defaults(info: Seq<String>)
    ensures
        heading_text(info) == (if info.len() > 0 {
            info[0]@
        } else {
            seq!['t', 'i', 't', 'l', 'e']
        }),
        description_text(info) == (if info.len() > 1 {
            info[1]@
        } else {
            seq!['d', 'e', 's', 'c', 'r', 'i', 'p', 't', 'i', 'o', 'n']
        }),
{
    reveal_strlit("title");
    reveal_strlit("description");
}

/// The entry that an episode page adds to the catalogue.
pub open spec fn episode_entry(
    c: Cartoon,
    seria_title: Seq<char>,
    info: Seq<String>,
    stream: Seq<char>,
    numbers: (u8, u8),
) -> bool {
    &&& c.category == Category::Cartoon
    &&& c.title@ == canonical_title(classify(heading_text(info)))
    &&& c.seria_title matches Some(t) && t@ == seria_title
    &&& c.season == Some(numbers.0)
    &&& c.seria == Some(numbers.1)
    &&& c.description matches Some(d) && d@ == description_text(info)
    &&& c.stream@ == stream
}

/// Addresses of `p` taken from the end: the order in which a stack gives them.
pub open spec fn stack_order(p: Seq<String>) -> Seq<Seq<char>> {
    Seq::new(p.len(), |i: int| p[p.len() - 1 - i]@)
}

/// The addresses of a list, in order.
pub open spec fn address_views(v: Seq<String>) -> Seq<Seq<char>> {
    v.map_values(|s: String| s@)
}

/// A depth-first walk over the site. Index pages add their links in front of
/// what is left to visit; episode pages add an entry to the catalogue.
pub struct Crawl {
    pending: Vec<String>,
    found: Vec<Cartoon>,
}

impl Crawl {
    /// The addresses still to visit, the next one first.
    pub closed spec fn queue(&self) -> Seq<Seq<char>> {
        stack_order(self.pending@)
    }

    /// The entries collected so far, in the order their pages were visited.
    pub closed spec fn found(&self) -> Seq<Cartoon> {
        self.found@
    }

    /// A walk that starts with the links `start`, in order.
    pub fn new(start: Vec<String>) -> (r: Crawl)
        ensures
            r.queue() == address_views(start@),
            r.found().len() == 0,
    {
        let mut c = Crawl { pending: Vec::new(), found: Vec::new() };
        c.add_listing(start);
        assert(address_views(start@) + Seq::<Seq<char>>::empty() == address_views(start@));
        c
    }

    /// The next address to visit, taken off what is left; `None` when the
    /// walk is over.
    pub fn next_page(&mut self) -> (r: Option<String>)
        ensures
            final(self).found() == old(self).found(),
            old(self).queue().len() == 0 ==> r is None && final(self).queue() == old(self).queue(),
            old(self).queue().len() > 0 ==> (r matches Some(h) && h@ == old(self).queue()[0]
                && final(self).queue() == old(self).queue().drop_first()),
    {
        let ghost before = self.pending@;
        let r = self.pending.pop();
        proof {
            if before.len() > 0 {
                assert(stack_order(self.pending@) == stack_order(before).drop_first());
            }
        }
        r
    }

    /// An index page was visited: its links `hrefs` are visited next, in
    /// order, before what was left.
    pub fn add_listing(&mut self, hrefs: Vec<String>)
        ensures
            final(self).found() == old(self).found(),
            final(self).queue() == address_views(hrefs@) + old(self).queue(),
    {
        let mut rest = hrefs;
        let ghost all = address_views(rest@);
        let ghost start = stack_order(self.pending@);
        while rest.len() > 0
            invariant
                self.found@ == old(self).found@,
                address_views(rest@) + stack_order(self.pending@) == all + start,
            decreases rest.len(),
        {
            let ghost rest_before = rest@;
            let ghost pending_before = self.pending@;
            let h = rest.pop().unwrap();
            self.pending.push(h);
            proof {
                assert(stack_order(self.pending@) == seq![h@] + stack_order(pending_before));
                assert(address_views(rest_before) == address_views(rest@).push(h@));
                assert(address_views(rest@) + stack_order(self.pending@) == address_views(
                    rest_before,
                ) + stack_order(pending_before));
            }
        }
        assert(address_views(rest@) == Seq::<Seq<char>>::empty());
        assert(Seq::<Seq<char>>::empty() + stack_order(self.pending@) == stack_order(
            self.pending@,
        ));
    }

    /// An episode page was visited: `seria_title` is its heading, `info` the
    /// text blocks of its description and `stream` the address of its video.
    /// Adds its entry; an `Err` where the numbers of the heading cannot be
    /// read, and then nothing changes.
    pub fn add_episode(&mut self, seria_title: String, info: Vec<String>, stream: String) -> (r:
        Result<(), HeadingError>)
        ensures
            final(self).queue() == old(self).queue(),
            match title_numbers(classify(heading_text(info@))) {
                Some(n) => r is Ok && final(self).found().len() == old(self).found().len() + 1
                    && final(self).found().drop_last() == old(self).found() && episode_entry(
                    final(self).found().last(),
                    seria_title@,
                    info@,
                    stream@,
                    n,
                ),
                None => r is Err && final(self).found() == old(self).found(),
            },
    {
        let heading = heading_of(&info);
        let description = description_of(&info);
        let classes = classify_title(heading.as_str());
        match title_numbers_of(&classes) {
            None => Err(HeadingError::EpisodeNumber),
            Some(_) => {
                let (season, seria, title) = Cartoon::get_season_and_seria_and_title(heading);
                let entry = Cartoon {
                    category: Category::Cartoon,
                    title: title,
                    seria_title: Some(seria_title),
                    season: Some(season),
                    seria: Some(seria),
                    description: Some(description),
                    stream: stream,
                };
                let ghost before = self.found@;
                self.found.push(entry);
                assert(self.found@.drop_last() == before);
                Ok(())
            },
        }
    }

    /// The entries collected, in the order their pages were visited.
    pub fn into_found(self) -> (r: Vec<Cartoon>)
        ensures
            r@ == self.found(),
    {
        self.found
    }
}

} // verus!
