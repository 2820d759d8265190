//! The statistics of the library: how many movies there are, how many of
//! them are watched, and how many were watched of late.

use vstd::prelude::*;
use vstd::string::StringExecFns;
use crate::clock::Timestamp;
use crate::collector::Movie;
use crate::tui::text::{decimal, decimal_of};

verus! {

/// A movie counts as watched of late for this many days.
pub const RECENT_DAYS: u64 = 14;

/// The counts that the interface shows.
#[derive(Clone, Copy, Debug, PartialEq, Eq, Structural)]
pub struct Stats {
    /// All movies.
    pub total: usize,
    /// The movies that are marked as watched.
    pub watched: usize,
    /// The movies that were watched at most `RECENT_DAYS` whole days ago.
    pub recent: usize,
    /// The movies that are not marked as watched.
    pub remaining: usize,
}

/// The movie was watched, not after `now` and at most `RECENT_DAYS` whole
/// days before it.
pub open spec fn is_recent(movie: Movie, now: Timestamp) -> bool {
    match movie.date_watched {
        Some(at) => match now.days_since(at) {
            Some(days) => days <= RECENT_DAYS,
            None => false,
        },
        None => false,
    }
}

/// How many of the movies are watched.
pub open spec fn watched_among(movies: Seq<Movie>) -> nat
    decreases movies.len(),
{
    if movies.len() == 0 {
        0
    } else if movies.last().is_watched() {
        watched_among(movies.drop_last()) + 1
    } else {
        watched_among(movies.drop_last())
    }
}

/// How many of the movies were watched of late.
pub open spec fn recent_among(movies: Seq<Movie>, now: Timestamp) -> nat
    decreases movies.len(),
{
    if movies.len() == 0 {
        0
    } else if is_recent(movies.last(), now) {
        recent_among(movies.drop_last(), now) + 1
    } else {
        recent_among(movies.drop_last(), now)
    }
}

/// No more movies are watched of late than are watched, and no more are
/// watched than there are.
pub proof fn lemma_counts_nest(movies: Seq<Movie>, now: Timestamp)
    ensures
        recent_among(movies, now) <= watched_among(movies) <= movies.len(),
    decreases movies.len(),
{
    if movies.len() > 0 {
        lemma_counts_nest(movies.drop_last(), now);
    }
}

/// The text of the statistics.
pub open spec fn text_of(stats: Stats) -> Seq<char> {
    "MOVIES TOTAL: "@ + decimal_of(stats.total as nat) + "\nWATCHED:\n├ last 14d: "@ + decimal_of(
        stats.recent as nat,
    ) + "\n└ total: "@ + decimal_of(stats.watched as nat) + "\nREMAINING: "@ + decimal_of(
        stats.remaining as nat,
    )
}

/// Whether the movie was watched of late.
pub fn recently_watched(movie: &Movie, now: &Timestamp) -> (yes: bool)
    ensures
        yes == is_recent(*movie, *now),
{
    match movie.date_watched {
        Some(at) => match now.days_after(&at) {
            Some(days) => days <= RECENT_DAYS,
            None => false,
        },
        None => false,
    }
}

/// Counts the movies.
pub fn survey(movies: &[Movie], now: &Timestamp) -> (stats: Stats)
    ensures
        stats.total == movies@.len(),
        stats.watched == watched_among(movies@),
        stats.recent == recent_among(movies@, *now),
        stats.remaining == movies@.len() - watched_among(movies@),
{
    let mut watched: usize = 0;
    let mut recent: usize = 0;
    let mut i: usize = 0;
    while i < movies.len()
        invariant
            i <= movies@.len(),
            watched == watched_among(movies@.subrange(0, i as int)),
            recent == recent_among(movies@.subrange(0, i as int), *now),
        decreases movies@.len() - i,
    {
        proof {
            assert(movies@.subrange(0, i + 1).drop_last() =~= movies@.subrange(0, i as int));
            lemma_counts_nest(movies@.subrange(0, i as int), *now);
        }
        if movies[i].date_watched.is_some() {
            watched += 1;
        }
        if recently_watched(&movies[i], now) {
            recent += 1;
        }
        i += 1;
    }
    proof {
        assert(movies@.subrange(0, movies@.len() as int) =~= movies@);
        lemma_counts_nest(movies@, *now);
    }
    Stats { total: movies.len(), watched, recent, remaining: movies.len() - watched }
}

/// The text of the statistics.
pub fn text(stats: &Stats) -> (text: String)
    ensures
        text@ == text_of(*stats),
{
    String::from_str("MOVIES TOTAL: ").concat(decimal(stats.total as u64).as_str()).concat(
        "\nWATCHED:\n├ last 14d: ",
    ).concat(decimal(stats.recent as u64).as_str()).concat("\n└ total: ").concat(
        decimal(stats.watched as u64).as_str(),
    ).concat("\nREMAINING: ").concat(decimal(stats.remaining as u64).as_str())
}

} // verus!
