//! The archive: the name-sorted movies that are known, the signature of the
//! scan that produced them, and the merge that brings a later scan in
//! without losing what the user marked.

use vstd::prelude::*;
use vstd::string::StringExecFns;
use crate::catalogue::{
    find, holds, in_order, is_reconciliation, lemma_one_of_a_name,
    lemma_reconciliation_adopts_found, lemma_reconciliation_keeps_known,
    lemma_replace_keeps_order, lemma_strictly_sorted_is_sorted, named, reconcile,
    strictly_sorted, Named,
};
use crate::collector::{Movie, Timestamp};

verus! {

/// The name of the file, inside the scanned directory, that holds the saved
/// state.
pub const SAVE_FILE: &'static str = ".movies.json";

/// Why an operation on the archive failed.
#[derive(Clone, Copy, Debug, PartialEq, Eq, Structural)]
pub enum Error {
    /// The archive holds no movie of that name.
    NotFound,
    /// Saved movies are not in strictly increasing order of their names.
    OutOfOrder,
}

impl Error {
    /// What went wrong, in words.
    pub open spec fn text(self) -> Seq<char> {
        match self {
            Error::NotFound => "no movie of that name"@,
            Error::OutOfOrder => "saved movies are not in the order of their names"@,
        }
    }

    /// What went wrong, in words.
    pub fn message(&self) -> (text: &'static str)
        ensures
            text@ == self.text(),
    {
        match *self {
            Error::NotFound => "no movie of that name",
            Error::OutOfOrder => "saved movies are not in the order of their names",
        }
    }
}

/// Where the first state of an archive comes from.
#[derive(Debug)]
pub enum Startup<T> {
    /// The movies and the signature that were saved earlier.
    Saved(Vec<T>, u64),
    /// The movies and the signature of a fresh scan, for want of a saved
    /// state.
    Scanned(Vec<T>, u64),
}

/// The authoritative collection of movies.
#[derive(Debug)]
pub struct Archive {
    movies: Vec<Movie>,
    hash: u64,
    save_path: String,
    path: String,
}

/// Where the state of an archive over `path` is saved.
pub open spec fn save_location_of(path: Seq<char>) -> Seq<char> {
    path + "/"@ + SAVE_FILE@
}

impl Archive {
    /// The movies are in strictly increasing order of their names.
    #[verifier::type_invariant]
    pub closed spec fn wf(self) -> bool {
        strictly_sorted(self.movies@)
    }

    /// The movies of the archive, in order.
    pub closed spec fn items(self) -> Seq<Movie> {
        self.movies@
    }

    /// The signature of the scan that the movies come from.
    pub closed spec fn signature(self) -> u64 {
        self.hash
    }

    /// The scanned directory.
    pub closed spec fn root(self) -> Seq<char> {
        self.path@
    }

    /// Where the state is saved.
    pub closed spec fn save_location(self) -> Seq<char> {
        self.save_path@
    }

    /// The movies of the archive, sorted by name, no name twice.
    pub fn movies(&self) -> (movies: &Vec<Movie>)
        ensures
            movies@ == self.items(),
            strictly_sorted(movies@),
    {
        proof {
            use_type_invariant(self);
        }
        &self.movies
    }

    /// The signature of the scan that the movies come from.
    pub fn hash(&self) -> (hash: u64)
        ensures
            hash == self.signature(),
    {
        self.hash
    }

    /// The scanned directory.
    pub fn path(&self) -> (path: &str)
        ensures
            path@ == self.root(),
    {
        self.path.as_str()
    }

    /// Where the state is saved.
    pub fn save_path(&self) -> (path: &str)
        ensures
            path@ == self.save_location(),
    {
        self.save_path.as_str()
    }

    /// The place of the movie of that name, found by binary search.
    pub fn get_index(&self, name: &str) -> (at: Option<usize>)
        ensures
            match at {
                Some(i) => i < self.items().len() && self.items()[i as int].name@ == name@,
                None => !holds(self.items(), name@),
            },
    {
        proof {
            use_type_invariant(self);
            lemma_strictly_sorted_is_sorted(self.movies@);
        }
        find(self.movies.as_slice(), name)
    }

    /// Where the state of an archive over `path` is saved.
    pub fn save_path_of(path: &str) -> (save_path: String)
        ensures
            save_path@ == save_location_of(path@),
    {
        String::from_str(path).concat("/").concat(SAVE_FILE)
    }

    /// The archive over `path` that holds exactly these movies.
    fn build_archive(path: &str, movies: Vec<Movie>, hash: u64) -> (archive: Archive)
        requires
            strictly_sorted(movies@),
        ensures
            archive.items() == movies@,
            archive.signature() == hash,
            archive.root() == path@,
            archive.save_location() == save_location_of(path@),
    {
        Archive { movies, hash, save_path: Self::save_path_of(path), path: String::from_str(path) }
    }

    /// Makes the archive of a run over `path`.
    ///
    /// Saved movies are taken as they are, with their signature, and bound
    /// to `path`; they are refused when they are not in strictly increasing
    /// order of their names, because no lookup would be right on them. A
    /// fresh scan is taken as a merge into an empty archive: sorted by name,
    /// the first movie of each name.
    pub fn init(path: &str, source: Startup<Movie>) -> (result: Result<Archive, Error>)
        ensures
            match source {
                Startup::Saved(movies, hash) => match result {
                    Ok(archive) => strictly_sorted(movies@) && archive.items() == movies@
                        && archive.signature() == hash,
                    Err(error) => !strictly_sorted(movies@) && error == Error::OutOfOrder,
                },
                Startup::Scanned(movies, hash) => match result {
                    Ok(archive) => is_reconciliation(Seq::empty(), movies@, archive.items())
                        && archive.signature() == hash,
                    Err(_) => false,
                },
            },
            result matches Ok(archive) ==> archive.wf() && archive.root() == path@
                && archive.save_location() == save_location_of(path@),
    {
        match source {
            Startup::Saved(movies, hash) => {
                if in_order(movies.as_slice()) {
                    Ok(Self::build_archive(path, movies, hash))
                } else {
                    Err(Error::OutOfOrder)
                }
            },
            Startup::Scanned(movies, hash) => {
                let none: Vec<Movie> = Vec::new();
                let merged = reconcile(none.as_slice(), movies.as_slice());
                Ok(Self::build_archive(path, merged, hash))
            },
        }
    }

    /// Puts a movie of the same name in the place of the one at `at`.
    fn put(&mut self, at: usize, movie: Movie)
        requires
            at < old(self).items().len(),
            movie.name@ == old(self).items()[at as int].name@,
        ensures
            final(self).items() == old(self).items().update(at as int, movie),
            same_scan(*old(self), *final(self)),
    {
        proof {
            use_type_invariant(&*self);
            lemma_replace_keeps_order(self.movies@, at as int, movie);
        }
        let mut movies: Vec<Movie> = Vec::new();
        core::mem::swap(&mut self.movies, &mut movies);
        movies.set(at, movie);
        core::mem::swap(&mut self.movies, &mut movies);
    }

    /// The movie with another mark.
    fn remark(movie: &Movie, mark: Option<Timestamp>) -> (marked: Movie)
        ensures
            marked == with_mark(*movie, mark),
    {
        Movie {
            name: movie.name.clone(),
            path: movie.path.clone(),
            date_watched: mark,
            duration: movie.duration,
        }
    }

    /// Flips the mark of the movie of that name: a watched movie becomes
    /// unwatched, an unwatched one watched at `now`. Fails, and changes
    /// nothing, when the archive holds no movie of that name.
    pub fn toggle_watched(&mut self, name: &str, now: Timestamp) -> (result: Result<(), Error>)
        ensures
            match result {
                Ok(_) => holds(old(self).items(), name@) && final(self).items() == toggled(
                    old(self).items(),
                    name@,
                    now,
                ) && same_scan(*old(self), *final(self)),
                Err(error) => !holds(old(self).items(), name@) && error == Error::NotFound
                    && *final(self) == *old(self),
            },
    {
        match self.get_index(name) {
            Some(i) => {
                proof {
                    use_type_invariant(&*self);
                    lemma_one_of_a_name(self.movies@, i as int);
                    assert(self.movies@[i as int].name_of() == name@);
                }
                let mark = if self.movies[i].date_watched.is_some() {
                    None
                } else {
                    Some(now)
                };
                let marked = Self::remark(&self.movies[i], mark);
                self.put(i, marked);
                proof {
                    assert(self.movies@ =~= toggled(old(self).movies@, name@, now));
                }
                Ok(())
            },
            None => Err(Error::NotFound),
        }
    }

    /// Marks the movie of that name as watched at `now`. Fails, and changes
    /// nothing, when the archive holds no movie of that name.
    pub fn set_watched(&mut self, name: &str, now: Timestamp) -> (result: Result<(), Error>)
        ensures
            match result {
                Ok(_) => holds(old(self).items(), name@) && final(self).items() == watched(
                    old(self).items(),
                    name@,
                    now,
                ) && same_scan(*old(self), *final(self)),
                Err(error) => !holds(old(self).items(), name@) && error == Error::NotFound
                    && *final(self) == *old(self),
            },
    {
        match self.get_index(name) {
            Some(i) => {
                proof {
                    use_type_invariant(&*self);
                    lemma_one_of_a_name(self.movies@, i as int);
                    assert(self.movies@[i as int].name_of() == name@);
                }
                let marked = Self::remark(&self.movies[i], Some(now));
                self.put(i, marked);
                proof {
                    assert(self.movies@ =~= watched(old(self).movies@, name@, now));
                }
                Ok(())
            },
            None => Err(Error::NotFound),
        }
    }

    /// The path of the movie of that name. Fails when the archive holds no
    /// movie of that name.
    pub fn get_path(&self, name: &str) -> (result: Result<String, Error>)
        ensures
            match result {
                Ok(path) => exists|i: int|
                    0 <= i < self.items().len() && #[trigger] self.items()[i].name@ == name@
                        && path == self.items()[i].path,
                Err(error) => !holds(self.items(), name@) && error == Error::NotFound,
            },
    {
        match self.get_index(name) {
            Some(i) => Ok(self.movies[i].path.clone()),
            None => Err(Error::NotFound),
        }
    }

    /// Brings a scan in. Nothing changes when the scan has the signature
    /// that the archive already has. Otherwise the movies become the merge
    /// of the scan into them, and the signature becomes that of the scan.
    pub fn update(&mut self, data: &[Movie], hash: u64)
        ensures
            updates(*old(self), data@, hash, *final(self)),
    {
        if hash != self.hash {
            let merged = reconcile(self.movies.as_slice(), data);
            self.movies = merged;
            self.hash = hash;
        }
    }
}

/// The movie with another mark and nothing else changed.
pub open spec fn with_mark(movie: Movie, mark: Option<Timestamp>) -> Movie {
    Movie { name: movie.name, path: movie.path, date_watched: mark, duration: movie.duration }
}

/// The mark that a toggle at `now` leaves.
pub open spec fn flipped(mark: Option<Timestamp>, now: Timestamp) -> Option<Timestamp> {
    if mark.is_some() {
        None
    } else {
        Some(now)
    }
}

/// The movies with the mark of the movie of that name flipped at `now`.
pub open spec fn toggled(items: Seq<Movie>, name: Seq<char>, now: Timestamp) -> Seq<Movie> {
    Seq::new(
        items.len(),
        |k: int|
            if items[k].name@ == name {
                with_mark(items[k], flipped(items[k].date_watched, now))
            } else {
                items[k]
            },
    )
}

/// The movies with the movie of that name marked as watched at `now`.
pub open spec fn watched(items: Seq<Movie>, name: Seq<char>, now: Timestamp) -> Seq<Movie> {
    Seq::new(
        items.len(),
        |k: int|
            if items[k].name@ == name {
                with_mark(items[k], Some(now))
            } else {
                items[k]
            },
    )
}

/// Both archives have the same signature and are bound to the same places.
pub open spec fn same_scan(before: Archive, after: Archive) -> bool {
    &&& after.signature() == before.signature()
    &&& after.root() == before.root()
    &&& after.save_location() == before.save_location()
}

/// What `update` makes of an archive: `after` is `before` itself when the
/// scan has the signature that `before` has; else it has the scan's
/// signature, holds the merge of the scan into the movies of `before`, and
/// is bound to the same places.
pub open spec fn updates(before: Archive, data: Seq<Movie>, hash: u64, after: Archive) -> bool {
    if hash == before.signature() {
        after == before
    } else {
        &&& after.signature() == hash
        &&& is_reconciliation(before.items(), data, after.items())
        &&& after.root() == before.root()
        &&& after.save_location() == before.save_location()
    }
}

/// The movies of a well-formed archive are in strictly increasing order of
/// their names.
pub proof fn lemma_archive_order(archive: Archive)
    requires
        archive.wf(),
    ensures
        strictly_sorted(archive.items()),
{
}

/// Applying the same scan twice changes the archive only the first time.
pub proof fn lemma_update_idempotent(
    start: Archive,
    data: Seq<Movie>,
    hash: u64,
    once: Archive,
    twice: Archive,
)
    requires
        updates(start, data, hash, once),
        updates(once, data, hash, twice),
    ensures
        twice == once,
{
}

/// A movie whose name a later scan still found is in the archive after the
/// update exactly as it was before: with its watched-mark, and with its own
/// path and duration, whatever the scan says of the file.
pub proof fn lemma_update_keeps_known(
    before: Archive,
    data: Seq<Movie>,
    hash: u64,
    after: Archive,
    i: int,
)
    requires
        before.wf(),
        updates(before, data, hash, after),
        0 <= i < before.items().len(),
        holds(data, before.items()[i].name@),
    ensures
        exists|j: int|
            0 <= j < after.items().len() && #[trigger] after.items()[j] == before.items()[i],
{
    if hash == before.signature() {
        assert(after.items()[i] == before.items()[i]);
    } else {
        lemma_reconciliation_keeps_known(before.items(), data, after.items(), i);
    }
}

/// A movie that was watched and whose name a later scan still found is
/// still watched after the update.
pub proof fn lemma_update_keeps_watched(
    before: Archive,
    data: Seq<Movie>,
    hash: u64,
    after: Archive,
    i: int,
)
    requires
        before.wf(),
        updates(before, data, hash, after),
        0 <= i < before.items().len(),
        before.items()[i].is_watched(),
        holds(data, before.items()[i].name@),
    ensures
        exists|j: int|
            0 <= j < after.items().len() && (#[trigger] after.items()[j]).name@
                == before.items()[i].name@ && after.items()[j].date_watched
                == before.items()[i].date_watched,
{
    lemma_update_keeps_known(before, data, hash, after, i);
    let j = choose|j: int|
        0 <= j < after.items().len() && #[trigger] after.items()[j] == before.items()[i];
    assert(after.items()[j].name@ == before.items()[i].name@);
}

/// After an update with a scan of another signature, the archive holds no
/// movie whose name the scan did not find.
pub proof fn lemma_update_drops_vanished(
    before: Archive,
    data: Seq<Movie>,
    hash: u64,
    after: Archive,
    name: Seq<char>,
)
    requires
        updates(before, data, hash, after),
        hash != before.signature(),
        !holds(data, name),
    ensures
        !holds(after.items(), name),
{
}

/// After an update with a scan of another signature, a movie that was not
/// known before is the first that the scan found of its name.
pub proof fn lemma_update_adopts_found(
    before: Archive,
    data: Seq<Movie>,
    hash: u64,
    after: Archive,
    j: int,
)
    requires
        updates(before, data, hash, after),
        hash != before.signature(),
        0 <= j < after.items().len(),
        !holds(before.items(), after.items()[j].name@),
    ensures
        holds(data, after.items()[j].name@),
        after.items()[j] == named(data, after.items()[j].name@)[0],
{
    lemma_reconciliation_adopts_found(before.items(), data, after.items(), j);
}

/// Toggling a movie twice leaves it watched if it was watched and unwatched
/// if it was not, and changes no other movie.
pub proof fn lemma_toggle_twice(
    items: Seq<Movie>,
    name: Seq<char>,
    first: Timestamp,
    second: Timestamp,
    k: int,
)
    requires
        0 <= k < items.len(),
    ensures
        toggled(toggled(items, name, first), name, second).len() == items.len(),
        toggled(toggled(items, name, first), name, second)[k].is_watched()
            == items[k].is_watched(),
        items[k].name@ != name || !items[k].is_watched() ==> toggled(
            toggled(items, name, first),
            name,
            second,
        )[k] == items[k],
{
}

} // verus!
