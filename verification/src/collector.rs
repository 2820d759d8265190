//! The collector: which of the entries that a walk enumerates are movies,
//! and the name-sorted list and signature that a scan yields.

use std::collections::hash_map::DefaultHasher;
use vstd::prelude::*;
use crate::catalogue::{
    distinct_names, is_stable_sort, lemma_named_contains, lemma_named_members,
    lemma_stable_sort_any_order, lemma_stable_sort_unique, named, same_members, sort_by_name,
    Named,
};
use crate::names::key;
use crate::signature::{
    byte_digest, feed_byte, feed_number, feed_text, number_digest, signature, signature_of,
    text_digest, Digest,
};

pub use crate::clock::Timestamp;

verus! {

/// The shortest playback time, in seconds, that makes a file a movie.
pub const MIN_DURATION: i64 = 3600;

/// The number of prober time units in one second.
pub const TIME_BASE: i64 = 1_000_000;

/// One movie of the library.
#[derive(Debug, PartialEq, Eq, Hash)]
pub struct Movie {
    /// The file's base name, under which the movie is listed and found.
    pub name: String,
    /// Where the file lies.
    pub path: String,
    /// When the movie was marked as watched; `None` while it is unwatched.
    pub date_watched: Option<Timestamp>,
    /// The playback time in seconds.
    pub duration: u64,
}

impl Movie {
    /// Whether the movie has been marked as watched.
    pub open spec fn is_watched(&self) -> bool {
        self.date_watched.is_some()
    }

    /// Whether the movie has been marked as watched.
    pub fn watched(&self) -> (yes: bool)
        ensures
            yes == self.is_watched(),
    {
        self.date_watched.is_some()
    }
}

impl Clone for Movie {
    fn clone(&self) -> (copy: Self)
        ensures
            copy == *self,
    {
        Movie {
            name: self.name.clone(),
            path: self.path.clone(),
            date_watched: self.date_watched,
            duration: self.duration,
        }
    }
}

impl Named for Movie {
    open spec fn name_of(&self) -> Seq<char> {
        self.name@
    }

    fn name(&self) -> (name: &str) {
        self.name.as_str()
    }

    fn replica(&self) -> (copy: Self) {
        self.clone()
    }
}

/// What a watched-mark writes to the hasher: one byte that tells whether it
/// is set, and the time if it is.
pub open spec fn mark_digest(mark: Option<Timestamp>) -> Seq<Seq<u8>> {
    match mark {
        None => byte_digest(0),
        Some(at) => byte_digest(1) + number_digest(at.secs) + number_digest(at.nanos as u64),
    }
}

/// Writes a watched-mark to the hasher.
pub fn feed_mark(mark: Option<Timestamp>, hasher: &mut DefaultHasher)
    ensures
        final(hasher)@ == old(hasher)@ + mark_digest(mark),
{
    match mark {
        None => {
            feed_byte(0, hasher);
        },
        Some(at) => {
            feed_byte(1, hasher);
            feed_number(at.secs, hasher);
            feed_number(at.nanos as u64, hasher);
            proof {
                assert(hasher@ =~= old(hasher)@ + mark_digest(mark));
            }
        },
    }
}

impl Digest for Movie {
    open spec fn digest(&self) -> Seq<Seq<u8>> {
        text_digest(self.name@) + text_digest(self.path@) + mark_digest(self.date_watched)
            + number_digest(self.duration)
    }

    fn feed(&self, hasher: &mut DefaultHasher) {
        feed_text(self.name.as_str(), hasher);
        feed_text(self.path.as_str(), hasher);
        feed_mark(self.date_watched, hasher);
        feed_number(self.duration, hasher);
        proof {
            assert(hasher@ =~= old(hasher)@ + self.digest());
        }
    }
}

/// One entry of the walk, as plain values.
#[derive(Debug, PartialEq, Eq)]
pub struct Entry {
    /// The entry's path.
    pub path: String,
    /// The last component of the path.
    pub file_name: String,
    /// Whether the entry is a regular file.
    pub is_file: bool,
    /// The size of the file in bytes.
    pub len: u64,
}

/// An entry together with what the prober said of it.
#[derive(Debug, PartialEq, Eq)]
pub struct Probed {
    pub entry: Entry,
    /// The playback time in prober time units; `None` when the entry was not
    /// probed or the prober failed on it.
    pub duration: Option<i64>,
}

impl Clone for Entry {
    fn clone(&self) -> (copy: Self)
        ensures
            copy == *self,
    {
        Entry {
            path: self.path.clone(),
            file_name: self.file_name.clone(),
            is_file: self.is_file,
            len: self.len,
        }
    }
}

impl Clone for Probed {
    fn clone(&self) -> (copy: Self)
        ensures
            copy == *self,
    {
        Probed { entry: self.entry.clone(), duration: self.duration }
    }
}

/// `text` ends with `suffix`.
pub open spec fn is_suffix(text: Seq<u8>, suffix: Seq<u8>) -> bool {
    text.len() >= suffix.len() && text.subrange(text.len() - suffix.len(), text.len() as int)
        == suffix
}

/// The file name consists of a non-empty stem and the given extension,
/// which is written with its dot.
pub open spec fn has_extension(file_name: Seq<char>, dotted: Seq<char>) -> bool {
    key(file_name).len() > key(dotted).len() && is_suffix(key(file_name), key(dotted))
}

/// The file name has one of the extensions of the allow-list: `mkv`, `mp4`,
/// `avi`, `mov`.
pub open spec fn allowed(file_name: Seq<char>) -> bool {
    ||| has_extension(file_name, ".mkv"@)
    ||| has_extension(file_name, ".mp4"@)
    ||| has_extension(file_name, ".avi"@)
    ||| has_extension(file_name, ".mov"@)
}

/// The entry is worth probing: a regular file with an allowed extension.
pub open spec fn candidate(entry: Entry) -> bool {
    entry.is_file && allowed(entry.file_name@)
}

/// The probed playback time is that of a movie: at least `MIN_DURATION`
/// whole seconds.
pub open spec fn long_enough(duration: Option<i64>) -> bool {
    match duration {
        Some(d) => (d as int) / (TIME_BASE as int) >= MIN_DURATION,
        None => false,
    }
}

/// The entry is a movie.
pub open spec fn qualifies(entry: Entry, duration: Option<i64>) -> bool {
    candidate(entry) && long_enough(duration)
}

/// The movie that a qualifying entry becomes: named by its file name,
/// unwatched, with the probed time in whole seconds.
pub open spec fn movie_of(entry: Entry, duration: Option<i64>) -> Movie {
    Movie {
        name: entry.file_name,
        path: entry.path,
        date_watched: None,
        duration: ((duration.unwrap() as int) / (TIME_BASE as int)) as u64,
    }
}

/// The movies among the scanned entries, in the order of the scan.
pub open spec fn found_in(scan: Seq<Probed>) -> Seq<Movie>
    decreases scan.len(),
{
    if scan.len() == 0 {
        Seq::empty()
    } else if qualifies(scan.last().entry, scan.last().duration) {
        found_in(scan.drop_last()).push(movie_of(scan.last().entry, scan.last().duration))
    } else {
        found_in(scan.drop_last())
    }
}

/// `movie` is what some qualifying entry of the scan became.
pub open spec fn stems_from(movie: Movie, scan: Seq<Probed>) -> bool {
    exists|k: int|
        0 <= k < scan.len() && qualifies(#[trigger] scan[k].entry, scan[k].duration) && movie
            == movie_of(scan[k].entry, scan[k].duration)
}

/// Every movie found in a scan stems from a qualifying entry of it.
pub proof fn lemma_found_stem(scan: Seq<Probed>)
    ensures
        forall|i: int|
            0 <= i < found_in(scan).len() ==> stems_from(#[trigger] found_in(scan)[i], scan),
    decreases scan.len(),
{
    if scan.len() > 0 {
        let rest = scan.drop_last();
        lemma_found_stem(rest);
        assert forall|i: int| 0 <= i < found_in(scan).len() implies stems_from(
            #[trigger] found_in(scan)[i],
            scan,
        ) by {
            let movie = found_in(scan)[i];
            if i < found_in(rest).len() {
                assert(movie == found_in(rest)[i]);
                let k = choose|k: int|
                    0 <= k < rest.len() && qualifies(#[trigger] rest[k].entry, rest[k].duration)
                        && movie == movie_of(rest[k].entry, rest[k].duration);
                assert(scan[k] == rest[k]);
            } else {
                let k = scan.len() - 1;
                assert(qualifies(scan[k].entry, scan[k].duration));
            }
        }
    }
}

/// The collector's rules. A walk and a prober supply the entries; nothing
/// here touches the file system.
pub struct Collector;

impl Collector {
    /// How many entries each worker gets when `entries` entries are handed
    /// out in contiguous chunks to `workers` workers.
    pub fn chunk_len(entries: usize, workers: usize) -> (len: usize)
        requires
            workers > 0,
            entries < usize::MAX,
        ensures
            len == entries / workers + 1,
            len >= 1,
            len * workers > entries,
    {
        let len = entries / workers + 1;
        proof {
            assert(len * workers > entries) by (nonlinear_arith)
                requires
                    workers > 0,
                    len == entries / workers + 1,
            ;
        }
        len
    }

    /// Whether `text` ends with `suffix`.
    fn ends_with(text: &[u8], suffix: &[u8]) -> (yes: bool)
        ensures
            yes == is_suffix(text@, suffix@),
    {
        if text.len() < suffix.len() {
            return false;
        }
        let start = text.len() - suffix.len();
        let ghost tail = text@.subrange(start as int, text@.len() as int);
        let mut i: usize = 0;
        while i < suffix.len()
            invariant
                i <= suffix@.len(),
                start + suffix@.len() == text@.len(),
                text@.len() <= usize::MAX,
                tail == text@.subrange(start as int, text@.len() as int),
                forall|k: int| 0 <= k < i ==> tail[k] == suffix@[k],
            decreases suffix@.len() - i,
        {
            if text[start + i] != suffix[i] {
                proof {
                    assert(tail[i as int] == text@[start + i]);
                }
                return false;
            }
            proof {
                assert(tail[i as int] == text@[start + i]);
            }
            i += 1;
        }
        proof {
            assert(tail =~= suffix@);
        }
        true
    }

    /// Whether the file name has the extension, which is given with its dot.
    fn has_extension(file_name: &str, dotted: &str) -> (yes: bool)
        ensures
            yes == has_extension(file_name@, dotted@),
    {
        let name = file_name.as_bytes();
        let end = dotted.as_bytes();
        name.len() > end.len() && Self::ends_with(name, end)
    }

    /// Whether the file name has an extension of the allow-list.
    pub fn is_allowed(file_name: &str) -> (yes: bool)
        ensures
            yes == allowed(file_name@),
    {
        Self::has_extension(file_name, ".mkv") || Self::has_extension(file_name, ".mp4")
            || Self::has_extension(file_name, ".avi") || Self::has_extension(file_name, ".mov")
    }

    /// Whether the entry is worth probing.
    pub fn is_candidate(entry: &Entry) -> (yes: bool)
        ensures
            yes == candidate(*entry),
    {
        entry.is_file && Self::is_allowed(entry.file_name.as_str())
    }

    /// Whether the probed playback time is that of a movie. A time that the
    /// prober could not tell, which it reports as a negative number, is not.
    pub fn is_long_enough(duration: Option<i64>) -> (yes: bool)
        ensures
            yes == long_enough(duration),
    {
        match duration {
            Some(d) => d >= 0 && d / TIME_BASE >= MIN_DURATION,
            None => false,
        }
    }

    /// Whether the entry, with what the prober said of it, is a movie.
    pub fn is_movie(entry: &Entry, duration: Option<i64>) -> (yes: bool)
        ensures
            yes == qualifies(*entry, duration),
    {
        Self::is_long_enough(duration) && Self::is_candidate(entry)
    }

    /// The movie that the entry becomes, or `None` when it does not qualify.
    pub fn process_entry(entry: &Entry, duration: Option<i64>) -> (movie: Option<Movie>)
        ensures
            movie == if qualifies(*entry, duration) {
                Some(movie_of(*entry, duration))
            } else {
                None
            },
    {
        if !Self::is_movie(entry, duration) {
            return None;
        }
        let seconds = duration.unwrap() / TIME_BASE;
        Some(
            Movie {
                name: entry.file_name.clone(),
                path: entry.path.clone(),
                date_watched: None,
                duration: seconds as u64,
            },
        )
    }

    /// What one worker makes of its chunk: the movies among the entries, in
    /// the order of the chunk.
    pub fn process_chunk(chunk: &[Probed]) -> (found: Vec<Movie>)
        ensures
            found@ == found_in(chunk@),
    {
        let mut found: Vec<Movie> = Vec::new();
        let mut i: usize = 0;
        while i < chunk.len()
            invariant
                i <= chunk@.len(),
                found@ == found_in(chunk@.subrange(0, i as int)),
            decreases chunk@.len() - i,
        {
            proof {
                assert(chunk@.subrange(0, i + 1).drop_last() =~= chunk@.subrange(0, i as int));
            }
            if let Some(movie) = Self::process_entry(&chunk[i].entry, chunk[i].duration) {
                found.push(movie);
            }
            i += 1;
        }
        proof {
            assert(chunk@.subrange(0, chunk@.len() as int) =~= chunk@);
        }
        found
    }

    /// Brings the movies that the workers found into their final order, by
    /// name, and computes the signature of the list in that order.
    pub fn finish(found: Vec<Movie>) -> (result: (Vec<Movie>, u64))
        ensures
            is_stable_sort(found@, result.0@),
            result.1 == signature_of(result.0@),
    {
        let movies = sort_by_name(found);
        let hash = signature(movies.as_slice());
        (movies, hash)
    }

    /// One whole pass over a scan: the movies among the entries, sorted by
    /// name, and the signature of that list. Movies of one name stay in the
    /// order of the scan. Every movie returned stems from an entry with an
    /// allowed extension and a probed time of at least `MIN_DURATION`
    /// seconds.
    pub fn collect(scan: &[Probed]) -> (result: (Vec<Movie>, u64))
        ensures
            is_stable_sort(found_in(scan@), result.0@),
            result.1 == signature_of(result.0@),
            forall|i: int| 0 <= i < result.0@.len() ==> stems_from(#[trigger] result.0@[i], scan@),
    {
        let found = Self::process_chunk(scan);
        let result = Self::finish(found);
        proof {
            lemma_sorted_items_stem(scan@, result.0@);
        }
        result
    }
}

/// Sorting the movies found in a scan leaves each of them what a qualifying
/// entry became.
pub proof fn lemma_sorted_items_stem(scan: Seq<Probed>, out: Seq<Movie>)
    requires
        is_stable_sort(found_in(scan), out),
    ensures
        forall|i: int| 0 <= i < out.len() ==> stems_from(#[trigger] out[i], scan),
{
    let found = found_in(scan);
    lemma_found_stem(scan);
    assert forall|i: int| 0 <= i < out.len() implies stems_from(#[trigger] out[i], scan) by {
        let name = out[i].name_of();
        lemma_named_contains(out, i);
        assert(named(out, name) == named(found, name));
        lemma_named_members(found, name);
        let k = choose|k: int| 0 <= k < named(found, name).len() && named(found, name)[k] == out[i];
        assert(found.contains(named(found, name)[k]));
        let j = choose|j: int| 0 <= j < found.len() && found[j] == out[i];
        assert(stems_from(found[j], scan));
    }
}

/// A pass over a scan has one outcome only: two sorted lists that both come
/// of the same scan are the same list and have the same signature.
pub proof fn lemma_collect_deterministic(scan: Seq<Probed>, first: Seq<Movie>, second: Seq<Movie>)
    requires
        is_stable_sort(found_in(scan), first),
        is_stable_sort(found_in(scan), second),
    ensures
        first == second,
        signature_of(first) == signature_of(second),
{
    lemma_stable_sort_unique(found_in(scan), first, second);
}

/// The order in which the workers deliver what they found does not show in
/// the outcome, as long as no two movies have the same name: two deliveries
/// of the same movies are sorted into the same list, with the same
/// signature.
pub proof fn lemma_finish_any_order(
    found: Seq<Movie>,
    again: Seq<Movie>,
    first: Seq<Movie>,
    second: Seq<Movie>,
)
    requires
        distinct_names(found),
        distinct_names(again),
        same_members(found, again),
        is_stable_sort(found, first),
        is_stable_sort(again, second),
    ensures
        first == second,
        signature_of(first) == signature_of(second),
{
    lemma_stable_sort_any_order(found, again, first, second);
}

} // verus!
