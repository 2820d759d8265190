//! The watched-filter of the listing.

use vstd::prelude::*;
use crate::collector::Movie;

verus! {

/// Which movies the listing shows.
#[derive(PartialEq, Eq, Clone, Copy, Debug, Structural)]
pub enum Filter {
    /// Only the watched ones.
    Watched,
    /// Only the unwatched ones.
    NotWatched,
    /// All of them.
    Empty,
}

impl Filter {
    /// The filter that follows this one when the user asks for the next.
    pub open spec fn next(self) -> Filter {
        match self {
            Filter::NotWatched => Filter::Watched,
            Filter::Watched => Filter::Empty,
            Filter::Empty => Filter::NotWatched,
        }
    }

    /// Whether the filter lets the movie through.
    pub open spec fn admits(self, movie: Movie) -> bool {
        match self {
            Filter::NotWatched => !movie.is_watched(),
            Filter::Watched => movie.is_watched(),
            Filter::Empty => true,
        }
    }

    /// The text that names the filter.
    pub open spec fn title(self) -> Seq<char> {
        match self {
            Filter::Watched => "Watched"@,
            Filter::NotWatched => "Not watched"@,
            Filter::Empty => "None"@,
        }
    }

    /// Moves on to the next filter: unwatched, watched, all, and round
    /// again.
    pub fn cycle(&mut self)
        ensures
            *final(self) == old(self).next(),
    {
        *self = match *self {
            Filter::NotWatched => Filter::Watched,
            Filter::Watched => Filter::Empty,
            Filter::Empty => Filter::NotWatched,
        };
    }

    /// Whether the filter lets the movie through.
    pub fn accepts(&self, movie: &Movie) -> (yes: bool)
        ensures
            yes == self.admits(*movie),
    {
        match *self {
            Filter::NotWatched => movie.date_watched.is_none(),
            Filter::Watched => movie.date_watched.is_some(),
            Filter::Empty => true,
        }
    }

    /// The text that names the filter.
    pub fn label(&self) -> (text: &'static str)
        ensures
            text@ == self.title(),
    {
        match *self {
            Filter::Watched => "Watched",
            Filter::NotWatched => "Not watched",
            Filter::Empty => "None",
        }
    }
}

/// After three steps the filter is what it was.
pub proof fn lemma_cycle_of_three(filter: Filter)
    ensures
        filter.next().next().next() == filter,
        filter.next() != filter,
        filter.next().next() != filter,
{
}

} // verus!
