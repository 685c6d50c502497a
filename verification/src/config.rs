//! The catalogue entry: one film, episode or series kept in the configuration.
use vstd::prelude::*;

verus! {

/// Kind of a catalogue entry.
#[derive(Debug, Clone, Copy, PartialEq, Eq, Structural)]
pub enum Category {
    Film,
    Cartoon,
    Anime,
}

/// One entry of the catalogue: an episode (or a film) and where to stream it.
#[derive(Debug, PartialEq)]
pub struct Cartoon {
    pub category: Category,
    pub title: String,
    pub seria_title: Option<String>,
    pub season: Option<u8>,
    pub seria: Option<u8>,
    pub description: Option<String>,
    pub stream: String,
}

/// Whether an entry is of the category `Cartoon`.
pub fn is_cartoon(category: Category) -> (r: bool)
    ensures
        r == (category == Category::Cartoon),
{
    match category {
        Category::Cartoon => true,
        _ => false,
    }
}

} // verus!
