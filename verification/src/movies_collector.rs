//! A collector that rejects small files before they are probed and gathers
//! what its workers found batch by batch.

use vstd::prelude::*;
use crate::catalogue::{is_stable_sort, sort_by_name, Named};
use crate::collector::{allowed, long_enough, Collector, Entry, Probed};
use crate::movies_archive::{Movie, Show};
use crate::signature::{signature, signature_of};

verus! {

/// The smallest size in bytes of a file that is worth probing.
pub const MIN_FILE_SIZE: u64 = 300_000_000;

/// What one worker found in its share of the entries.
#[derive(Debug)]
pub struct ProcessedMedia {
    movies: Vec<Movie>,
    shows: Vec<Show>,
}

impl ProcessedMedia {
    /// The movies of the batch, in the order in which they were found.
    pub closed spec fn found(self) -> Seq<Movie> {
        self.movies@
    }

    /// The shows of the batch.
    pub closed spec fn found_shows(self) -> Seq<Show> {
        self.shows@
    }

    /// An empty batch.
    pub fn new() -> (media: Self)
        ensures
            media.found() == Seq::<Movie>::empty(),
            media.found_shows() == Seq::<Show>::empty(),
    {
        Self { movies: Vec::new(), shows: Vec::new() }
    }

    /// The movies of the batch, in the order in which they were found.
    pub fn movies(&self) -> (movies: &Vec<Movie>)
        ensures
            movies@ == self.found(),
    {
        &self.movies
    }

    /// The shows of the batch.
    pub fn shows(&self) -> (shows: &Vec<Show>)
        ensures
            shows@ == self.found_shows(),
    {
        &self.shows
    }
}

/// The entry is worth probing: a regular file with an allowed extension
/// and at least `MIN_FILE_SIZE` bytes.
pub open spec fn candidate(entry: Entry) -> bool {
    entry.is_file && allowed(entry.file_name@) && entry.len >= MIN_FILE_SIZE
}

/// The entry is a movie.
pub open spec fn qualifies(entry: Entry, duration: Option<i64>) -> bool {
    candidate(entry) && long_enough(duration)
}

/// The movie that a qualifying entry becomes: named by its file name and
/// unwatched.
pub open spec fn movie_of(entry: Entry) -> Movie {
    Movie { name: entry.file_name, path: entry.path, watched: false }
}

/// The movies among the entries of a listing, in its order.
pub open spec fn found_in(listing: Seq<Probed>) -> Seq<Movie>
    decreases listing.len(),
{
    if listing.len() == 0 {
        Seq::empty()
    } else if qualifies(listing.last().entry, listing.last().duration) {
        found_in(listing.drop_last()).push(movie_of(listing.last().entry))
    } else {
        found_in(listing.drop_last())
    }
}

/// The movies of all batches, batch after batch.
pub open spec fn gathered(batches: Seq<ProcessedMedia>) -> Seq<Movie>
    decreases batches.len(),
{
    if batches.len() == 0 {
        Seq::empty()
    } else {
        gathered(batches.drop_last()) + batches.last().found()
    }
}

/// The number of chunks of `len` entries that `entries` entries fill.
pub open spec fn chunks_needed(entries: int, len: int) -> int {
    if entries % len == 0 {
        entries / len
    } else {
        entries / len + 1
    }
}

/// The rules of this collector. A walk and a prober supply the entries;
/// nothing here touches the file system.
pub struct MovieCollector;

impl MovieCollector {
    /// How many entries each worker gets when `entries` entries are handed
    /// out in at most `max_chunks` contiguous chunks: the quotient, rounded
    /// up. It is zero only when there is no entry; then there is nothing to
    /// hand out.
    pub fn chunk_size(entries: usize, max_chunks: usize) -> (len: usize)
        requires
            max_chunks > 0,
        ensures
            len == chunks_needed(entries as int, max_chunks as int),
            len * max_chunks >= entries,
            entries > 0 ==> len > 0 && (len - 1) * max_chunks < entries,
            entries == 0 ==> len == 0,
    {
        let whole = entries / max_chunks;
        let rest = entries % max_chunks;
        proof {
            assert(entries == whole * max_chunks + rest && rest < max_chunks) by (nonlinear_arith)
                requires
                    max_chunks > 0,
                    whole == entries / max_chunks,
                    rest == entries % max_chunks,
            ;
            assert((whole + 1) * max_chunks == whole * max_chunks + max_chunks)
                by (nonlinear_arith);
            assert((whole - 1) * max_chunks == whole * max_chunks - max_chunks)
                by (nonlinear_arith);
            if whole == 0 {
                assert(whole * max_chunks == 0) by (nonlinear_arith)
                    requires
                        whole == 0,
                ;
            }
            if rest > 0 {
                assert(whole < usize::MAX) by (nonlinear_arith)
                    requires
                        entries == whole * max_chunks + rest,
                        rest > 0,
                        max_chunks > 0,
                        entries <= usize::MAX,
                ;
            }
        }
        if rest == 0 {
            whole
        } else {
            whole + 1
        }
    }

    /// Whether the entry is worth probing.
    pub fn is_candidate(entry: &Entry) -> (yes: bool)
        ensures
            yes == candidate(*entry),
    {
        entry.is_file && Collector::is_allowed(entry.file_name.as_str()) && entry.len
            >= MIN_FILE_SIZE
    }

    /// Whether the entry, with what the prober said of it, is a movie.
    pub fn is_movie(entry: &Entry, duration: Option<i64>) -> (yes: bool)
        ensures
            yes == qualifies(*entry, duration),
    {
        if !Self::is_candidate(entry) {
            return false;
        }
        Collector::is_long_enough(duration)
    }

    /// The movie that the entry becomes, or `None` when it does not qualify.
    pub fn process_file(entry: &Entry, duration: Option<i64>) -> (movie: Option<Movie>)
        ensures
            movie == if qualifies(*entry, duration) {
                Some(movie_of(*entry))
            } else {
                None
            },
    {
        if !Self::is_movie(entry, duration) {
            return None;
        }
        Some(Movie { name: entry.file_name.clone(), path: entry.path.clone(), watched: false })
    }

    /// Adds to the batch the movies among the entries of one directory's
    /// listing, in the order of the listing.
    pub fn process_dir(processed_media: &mut ProcessedMedia, listing: &[Probed])
        ensures
            final(processed_media).found() == old(processed_media).found() + found_in(listing@),
            final(processed_media).found_shows() == old(processed_media).found_shows(),
    {
        let mut i: usize = 0;
        proof {
            assert(processed_media.movies@ =~= old(processed_media).movies@ + found_in(
                listing@.subrange(0, 0),
            ));
        }
        while i < listing.len()
            invariant
                i <= listing@.len(),
                processed_media.movies@ == old(processed_media).movies@ + found_in(
                    listing@.subrange(0, i as int),
                ),
                processed_media.shows@ == old(processed_media).shows@,
            decreases listing@.len() - i,
        {
            proof {
                assert(listing@.subrange(0, i + 1).drop_last() =~= listing@.subrange(0, i as int));
            }
            if let Some(movie) = Self::process_file(&listing[i].entry, listing[i].duration) {
                processed_media.movies.push(movie);
                proof {
                    assert(processed_media.movies@ =~= old(processed_media).movies@ + found_in(
                        listing@.subrange(0, i + 1),
                    ));
                }
            }
            i += 1;
        }
        proof {
            assert(listing@.subrange(0, listing@.len() as int) =~= listing@);
        }
    }

    /// Gathers the movies of all batches, sorts them by name, movies of one
    /// name in the order in which the batches have them, and computes the
    /// signature of the sorted list.
    pub fn collect_movies(batches: &[ProcessedMedia]) -> (result: (Vec<Movie>, u64))
        ensures
            is_stable_sort(gathered(batches@), result.0@),
            result.1 == signature_of(result.0@),
    {
        let mut all: Vec<Movie> = Vec::new();
        let mut i: usize = 0;
        while i < batches.len()
            invariant
                i <= batches@.len(),
                all@ == gathered(batches@.subrange(0, i as int)),
            decreases batches@.len() - i,
        {
            let batch = &batches[i].movies;
            let ghost before = all@;
            let mut k: usize = 0;
            while k < batch.len()
                invariant
                    k <= batch@.len(),
                    all@ == before + batch@.subrange(0, k as int),
                decreases batch@.len() - k,
            {
                all.push(batch[k].replica());
                proof {
                    assert(batch@.subrange(0, k + 1) =~= batch@.subrange(0, k as int).push(
                        batch@[k as int],
                    ));
                    assert(all@ =~= before + batch@.subrange(0, k + 1));
                }
                k += 1;
            }
            proof {
                assert(batch@.subrange(0, batch@.len() as int) =~= batch@);
                assert(batches@.subrange(0, i + 1).drop_last() =~= batches@.subrange(0, i as int));
            }
            i += 1;
        }
        proof {
            assert(batches@.subrange(0, batches@.len() as int) =~= batches@);
        }
        let movies = sort_by_name(all);
        let hash = signature(movies.as_slice());
        (movies, hash)
    }
}

} // verus!
