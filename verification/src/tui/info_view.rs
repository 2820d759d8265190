//! The description of one movie.

use vstd::prelude::*;
use vstd::string::StringExecFns;
use crate::clock::Timestamp;
use crate::collector::Movie;
use crate::tui::text::{decimal, decimal_of};

verus! {

/// The number of seconds in a minute.
pub const SECS_PER_MINUTE: u64 = 60;

/// The whole days that lie between the mark and `now`; none when the mark
/// is later than `now`.
pub open spec fn days_ago(at: Timestamp, now: Timestamp) -> int {
    match now.days_since(at) {
        Some(days) => days,
        None => 0,
    }
}

/// How long ago the movie was watched, in words.
pub open spec fn status_of(mark: Option<Timestamp>, now: Timestamp) -> Seq<char> {
    match mark {
        None => "Not yet"@,
        Some(at) => if days_ago(at, now) == 0 {
            "Today"@
        } else if days_ago(at, now) == 1 {
            "A day ago"@
        } else {
            decimal_of(days_ago(at, now) as nat) + " days ago"@
        },
    }
}

/// The description of the movie: when it was watched, and its length in
/// whole minutes.
pub open spec fn info_of(movie: Movie, now: Timestamp) -> Seq<char> {
    "WATCHED: "@ + status_of(movie.date_watched, now) + "\n\nLENGTH: "@ + decimal_of(
        (movie.duration / SECS_PER_MINUTE) as nat,
    ) + " minutes"@
}

/// How long ago the movie was watched, in words.
pub fn watched_status(mark: Option<Timestamp>, now: &Timestamp) -> (text: String)
    ensures
        text@ == status_of(mark, *now),
{
    match mark {
        None => String::from_str("Not yet"),
        Some(at) => {
            let days = match now.days_after(&at) {
                Some(days) => days,
                None => 0,
            };
            if days == 0 {
                String::from_str("Today")
            } else if days == 1 {
                String::from_str("A day ago")
            } else {
                decimal(days).concat(" days ago")
            }
        },
    }
}

/// The description of the movie as the interface shows it.
pub fn format_movie_info(movie: &Movie, now: &Timestamp) -> (text: String)
    ensures
        text@ == info_of(*movie, *now),
{
    let status = watched_status(movie.date_watched, now);
    let length = decimal(movie.duration / SECS_PER_MINUTE);
    String::from_str("WATCHED: ").concat(status.as_str()).concat("\n\nLENGTH: ").concat(
        length.as_str(),
    ).concat(" minutes")
}

} // verus!
