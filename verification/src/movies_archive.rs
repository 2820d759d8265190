//! An archive of movies that are either watched or not, without the time
//! at which they were marked.

use std::collections::hash_map::DefaultHasher;
use vstd::prelude::*;
use vstd::string::StringExecFns;
use crate::archive::{Error, Startup};
use crate::catalogue::{
    find, holds, in_order, is_reconciliation, lemma_one_of_a_name,
    lemma_reconciliation_keeps_known, lemma_replace_keeps_order,
    lemma_strictly_sorted_is_sorted, reconcile, strictly_sorted, Named,
};
use crate::signature::{byte_digest, feed_byte, feed_text, text_digest, Digest};

verus! {

/// The name of the file, inside the scanned directory, that holds the saved
/// state.
pub const SAVE_FILE: &'static str = ".media.json";

/// One movie of the library.
#[derive(Debug, PartialEq, Eq, Hash)]
pub struct Movie {
    /// The file's base name, under which the movie is listed and found.
    pub name: String,
    /// Where the file lies.
    pub path: String,
    /// Whether the user has marked the movie as watched.
    pub watched: bool,
}

/// A show: its seasons in order.
#[derive(Debug, PartialEq, Eq, Hash)]
pub struct Show {
    pub name: String,
    pub seasons: Vec<Season>,
}

/// One season of a show: its episodes in order.
#[derive(Debug, PartialEq, Eq, Hash)]
pub struct Season {
    pub name: String,
    pub episodes: Vec<Episode>,
}

/// One episode of a season.
#[derive(Debug, PartialEq, Eq, Hash)]
pub struct Episode {
    pub name: String,
    pub path: String,
    pub watched: bool,
}

impl Clone for Movie {
    fn clone(&self) -> (copy: Self)
        ensures
            copy == *self,
    {
        Movie { name: self.name.clone(), path: self.path.clone(), watched: self.watched }
    }
}

impl Named for Movie {
    open spec fn name_of(&self) -> Seq<char> {
        self.name@
    }

    fn name(&self) -> (name: &str) {
        self.name.as_str()
    }

    fn replica(&self) -> (copy: Self) {
        self.clone()
    }
}

/// The byte that stands for a watched-flag.
pub open spec fn flag(watched: bool) -> u8 {
    if watched {
        1
    } else {
        0
    }
}

impl Digest for Movie {
    open spec fn digest(&self) -> Seq<Seq<u8>> {
        text_digest(self.name@) + text_digest(self.path@) + byte_digest(flag(self.watched))
    }

    fn feed(&self, hasher: &mut DefaultHasher) {
        feed_text(self.name.as_str(), hasher);
        feed_text(self.path.as_str(), hasher);
        let mark: u8 = if self.watched {
            1
        } else {
            0
        };
        feed_byte(mark, hasher);
        proof {
            assert(hasher@ =~= old(hasher)@ + self.digest());
        }
    }
}

/// The movie with another mark and nothing else changed.
pub open spec fn with_mark(movie: Movie, watched: bool) -> Movie {
    Movie { name: movie.name, path: movie.path, watched }
}

/// The movies with the mark of the movie of that name flipped.
pub open spec fn toggled(items: Seq<Movie>, name: Seq<char>) -> Seq<Movie> {
    Seq::new(
        items.len(),
        |k: int|
            if items[k].name@ == name {
                with_mark(items[k], !items[k].watched)
            } else {
                items[k]
            },
    )
}

/// The movies with the movie of that name marked as watched.
pub open spec fn watched(items: Seq<Movie>, name: Seq<char>) -> Seq<Movie> {
    Seq::new(
        items.len(),
        |k: int|
            if items[k].name@ == name {
                with_mark(items[k], true)
            } else {
                items[k]
            },
    )
}

/// Where the state of an archive over `movies_path` is saved.
pub open spec fn save_location_of(movies_path: Seq<char>) -> Seq<char> {
    movies_path + "/"@ + SAVE_FILE@
}

/// The movies that are known, sorted by name, and the signature of the scan
/// that produced them.
#[derive(Debug)]
pub struct MoviesArchive {
    movies: Vec<Movie>,
    hash: u64,
    save_path: String,
    movies_path: String,
}

impl MoviesArchive {
    /// The movies are in strictly increasing order of their names.
    #[verifier::type_invariant]
    pub closed spec fn wf(self) -> bool {
        strictly_sorted(self.movies@)
    }

    /// The movies of the archive, in order.
    pub closed spec fn items(self) -> Seq<Movie> {
        self.movies@
    }

    /// The signature of the scan that the movies come from.
    pub closed spec fn signature(self) -> u64 {
        self.hash
    }

    /// The scanned directory.
    pub closed spec fn root(self) -> Seq<char> {
        self.movies_path@
    }

    /// Where the state is saved.
    pub closed spec fn save_location(self) -> Seq<char> {
        self.save_path@
    }

    /// Both archives have the same signature and are bound to the same
    /// places.
    pub open spec fn same_scan(self, after: MoviesArchive) -> bool {
        &&& after.signature() == self.signature()
        &&& after.root() == self.root()
        &&& after.save_location() == self.save_location()
    }

    /// What `refresh` makes of an archive: `after` is the archive itself
    /// when the scan has the signature that it has; else `after` has the
    /// scan's signature, holds the merge of the scan into the movies, and is
    /// bound to the same places.
    pub open spec fn refreshes(self, found: Seq<Movie>, hash: u64, after: MoviesArchive) -> bool {
        if hash == self.signature() {
            after == self
        } else {
            &&& after.signature() == hash
            &&& is_reconciliation(self.items(), found, after.items())
            &&& after.root() == self.root()
            &&& after.save_location() == self.save_location()
        }
    }

    /// The movies of the archive, sorted by name, no name twice.
    pub fn movies(&self) -> (movies: &Vec<Movie>)
        ensures
            movies@ == self.items(),
            strictly_sorted(movies@),
    {
        proof {
            use_type_invariant(self);
        }
        &self.movies
    }

    /// The signature of the scan that the movies come from.
    pub fn hash(&self) -> (hash: u64)
        ensures
            hash == self.signature(),
    {
        self.hash
    }

    /// The scanned directory.
    pub fn movies_path(&self) -> (path: &str)
        ensures
            path@ == self.root(),
    {
        self.movies_path.as_str()
    }

    /// Where the state is saved.
    pub fn save_path(&self) -> (path: &str)
        ensures
            path@ == self.save_location(),
    {
        self.save_path.as_str()
    }

    /// Where the state of an archive over `movies_path` is saved.
    pub fn save_path_of(movies_path: &str) -> (save_path: String)
        ensures
            save_path@ == save_location_of(movies_path@),
    {
        String::from_str(movies_path).concat("/").concat(SAVE_FILE)
    }

    /// The archive over `movies_path` that holds exactly these movies.
    fn build_archive(movies_path: &str, movies: Vec<Movie>, hash: u64) -> (archive: MoviesArchive)
        requires
            strictly_sorted(movies@),
        ensures
            archive.items() == movies@,
            archive.signature() == hash,
            archive.root() == movies_path@,
            archive.save_location() == save_location_of(movies_path@),
    {
        MoviesArchive {
            movies,
            hash,
            save_path: Self::save_path_of(movies_path),
            movies_path: String::from_str(movies_path),
        }
    }

    /// Makes the archive of a run over `movies_path`: from the saved state,
    /// which is refused when its movies are not in strictly increasing order
    /// of their names, or from a fresh scan, of which the first movie of
    /// each name is taken, in the order of the names.
    pub fn init(movies_path: &str, source: Startup<Movie>) -> (result: Result<MoviesArchive, Error>)
        ensures
            match source {
                Startup::Saved(movies, hash) => match result {
                    Ok(archive) => strictly_sorted(movies@) && archive.items() == movies@
                        && archive.signature() == hash,
                    Err(error) => !strictly_sorted(movies@) && error == Error::OutOfOrder,
                },
                Startup::Scanned(movies, hash) => match result {
                    Ok(archive) => is_reconciliation(Seq::empty(), movies@, archive.items())
                        && archive.signature() == hash,
                    Err(_) => false,
                },
            },
            result matches Ok(archive) ==> archive.wf() && archive.root() == movies_path@
                && archive.save_location() == save_location_of(movies_path@),
    {
        match source {
            Startup::Saved(movies, hash) => {
                if in_order(movies.as_slice()) {
                    Ok(Self::build_archive(movies_path, movies, hash))
                } else {
                    Err(Error::OutOfOrder)
                }
            },
            Startup::Scanned(movies, hash) => {
                let none: Vec<Movie> = Vec::new();
                let merged = reconcile(none.as_slice(), movies.as_slice());
                Ok(Self::build_archive(movies_path, merged, hash))
            },
        }
    }

    /// Brings a scan in. Nothing changes when the scan has the signature
    /// that the archive already has. Otherwise the movies become the merge
    /// of the scan into them, and the signature becomes that of the scan.
    pub fn refresh(&mut self, found: &[Movie], hash: u64)
        ensures
            old(self).refreshes(found@, hash, *final(self)),
    {
        if hash != self.hash {
            let merged = reconcile(self.movies.as_slice(), found);
            self.movies = merged;
            self.hash = hash;
        }
    }

    /// The place of the movie of that name, found by binary search.
    pub fn get_index(&self, name: &str) -> (at: Option<usize>)
        ensures
            match at {
                Some(i) => i < self.items().len() && self.items()[i as int].name@ == name@,
                None => !holds(self.items(), name@),
            },
    {
        proof {
            use_type_invariant(self);
            lemma_strictly_sorted_is_sorted(self.movies@);
        }
        find(self.movies.as_slice(), name)
    }

    /// Puts a movie of the same name in the place of the one at `at`.
    fn put(&mut self, at: usize, movie: Movie)
        requires
            at < old(self).items().len(),
            movie.name@ == old(self).items()[at as int].name@,
        ensures
            final(self).items() == old(self).items().update(at as int, movie),
            old(self).same_scan(*final(self)),
    {
        proof {
            use_type_invariant(&*self);
            lemma_replace_keeps_order(self.movies@, at as int, movie);
        }
        let mut movies: Vec<Movie> = Vec::new();
        core::mem::swap(&mut self.movies, &mut movies);
        movies.set(at, movie);
        core::mem::swap(&mut self.movies, &mut movies);
    }

    /// Flips the mark of the movie of that name. Fails, and changes
    /// nothing, when the archive holds no movie of that name.
    pub fn toggle_watched(&mut self, name: &str) -> (result: Result<(), Error>)
        ensures
            match result {
                Ok(_) => holds(old(self).items(), name@) && final(self).items() == toggled(
                    old(self).items(),
                    name@,
                ) && old(self).same_scan(*final(self)),
                Err(error) => !holds(old(self).items(), name@) && error == Error::NotFound
                    && *final(self) == *old(self),
            },
    {
        match self.get_index(name) {
            Some(i) => {
                proof {
                    use_type_invariant(&*self);
                    lemma_one_of_a_name(self.movies@, i as int);
                    assert(self.movies@[i as int].name_of() == name@);
                }
                let marked = Movie {
                    name: self.movies[i].name.clone(),
                    path: self.movies[i].path.clone(),
                    watched: !self.movies[i].watched,
                };
                self.put(i, marked);
                proof {
                    assert(self.movies@ =~= toggled(old(self).movies@, name@));
                }
                Ok(())
            },
            None => Err(Error::NotFound),
        }
    }

    /// Marks the movie of that name as watched. Fails, and changes nothing,
    /// when the archive holds no movie of that name.
    pub fn set_watched(&mut self, name: &str) -> (result: Result<(), Error>)
        ensures
            match result {
                Ok(_) => holds(old(self).items(), name@) && final(self).items() == watched(
                    old(self).items(),
                    name@,
                ) && old(self).same_scan(*final(self)),
                Err(error) => !holds(old(self).items(), name@) && error == Error::NotFound
                    && *final(self) == *old(self),
            },
    {
        match self.get_index(name) {
            Some(i) => {
                proof {
                    use_type_invariant(&*self);
                    lemma_one_of_a_name(self.movies@, i as int);
                    assert(self.movies@[i as int].name_of() == name@);
                }
                let marked = Movie {
                    name: self.movies[i].name.clone(),
                    path: self.movies[i].path.clone(),
                    watched: true,
                };
                self.put(i, marked);
                proof {
                    assert(self.movies@ =~= watched(old(self).movies@, name@));
                }
                Ok(())
            },
            None => Err(Error::NotFound),
        }
    }

    /// The path of the movie of that name. Fails when the archive holds no
    /// movie of that name.
    pub fn get_path(&self, name: &str) -> (result: Result<String, Error>)
        ensures
            match result {
                Ok(path) => exists|i: int|
                    0 <= i < self.items().len() && #[trigger] self.items()[i].name@ == name@
                        && path == self.items()[i].path,
                Err(error) => !holds(self.items(), name@) && error == Error::NotFound,
            },
    {
        match self.get_index(name) {
            Some(i) => Ok(self.movies[i].path.clone()),
            None => Err(Error::NotFound),
        }
    }
}

/// Refreshing twice with the same scan changes the archive only the first
/// time.
pub proof fn lemma_refresh_idempotent(
    start: MoviesArchive,
    found: Seq<Movie>,
    hash: u64,
    once: MoviesArchive,
    twice: MoviesArchive,
)
    requires
        start.refreshes(found, hash, once),
        once.refreshes(found, hash, twice),
    ensures
        twice == once,
{
}

/// A movie whose name a later scan still found is in the archive after the
/// refresh exactly as it was before, watched if it was watched.
pub proof fn lemma_refresh_keeps_known(
    before: MoviesArchive,
    found: Seq<Movie>,
    hash: u64,
    after: MoviesArchive,
    i: int,
)
    requires
        before.wf(),
        before.refreshes(found, hash, after),
        0 <= i < before.items().len(),
        holds(found, before.items()[i].name@),
    ensures
        exists|j: int|
            0 <= j < after.items().len() && #[trigger] after.items()[j] == before.items()[i],
{
    if hash == before.signature() {
        assert(after.items()[i] == before.items()[i]);
    } else {
        lemma_reconciliation_keeps_known(before.items(), found, after.items(), i);
    }
}

/// After a refresh with a scan of another signature, the archive holds no
/// movie whose name the scan did not find.
pub proof fn lemma_refresh_drops_vanished(
    before: MoviesArchive,
    found: Seq<Movie>,
    hash: u64,
    after: MoviesArchive,
    name: Seq<char>,
)
    requires
        before.refreshes(found, hash, after),
        hash != before.signature(),
        !holds(found, name),
    ensures
        !holds(after.items(), name),
{
}

/// Toggling a movie twice changes nothing.
pub proof fn lemma_toggle_twice(items: Seq<Movie>, name: Seq<char>)
    ensures
        toggled(toggled(items, name), name) == items,
{
    assert(toggled(toggled(items, name), name) =~= items);
}

} // verus!
