//! A library of movies whose change detection looks at the names of the
//! directory's entries only, and whose merge runs on a thread pool.

use vstd::prelude::*;
use vstd::string::StringExecFns;
use crate::archive::{Error, Startup};
use crate::catalogue::{
    find, first_of_each, holds, in_order, is_reconciliation, kept, lemma_merge_steps,
    lemma_one_of_a_name, lemma_reconciliation_keeps_known, lemma_reconciliation_unique,
    lemma_replace_keeps_order, lemma_same_names_same_places, lemma_strictly_sorted_is_sorted,
    reconcile, strictly_sorted, Named,
};
use crate::collector::{allowed, long_enough, Collector, Entry};
use crate::movies_archive::{toggled, watched};
use crate::parallel::{par_append, par_holds, par_sort_by_name};
use crate::signature::{lemma_signature_by_digest, signature, signature_of, Digest};

pub use crate::movies_archive::Movie;

verus! {

/// The name of the file, inside the scanned directory, that holds the saved
/// state.
pub const SAVE_FILE: &'static str = ".movies.json";

/// Where the state of a library over `movies_path` is saved.
pub open spec fn save_location_of(movies_path: Seq<char>) -> Seq<char> {
    movies_path + "/"@ + SAVE_FILE@
}

/// The names in increasing order, each once.
pub open spec fn is_name_list(names: Seq<String>, list: Seq<String>) -> bool {
    is_reconciliation(Seq::<String>::empty(), names, list)
}

/// The names of a directory's entries in increasing order, each once.
pub open spec fn name_list(names: Seq<String>) -> Seq<String> {
    choose|list: Seq<String>| is_name_list(names, list)
}

/// The signature of a directory whose entries have these names: that of
/// the list of the names in increasing order, each once.
pub open spec fn dir_signature(names: Seq<String>) -> u64 {
    signature_of(name_list(names))
}

/// The entry is a movie: it has an allowed extension and plays long enough.
pub open spec fn qualifies(entry: Entry, duration: Option<i64>) -> bool {
    allowed(entry.file_name@) && long_enough(duration)
}

/// The movie that a qualifying entry becomes: named by its file name and
/// unwatched.
pub open spec fn movie_of(entry: Entry) -> Movie {
    Movie { name: entry.file_name, path: entry.path, watched: false }
}

/// The movies that are known, sorted by name, and the signature of the
/// directory as it was when they were found.
#[derive(Debug)]
pub struct MoviesLib {
    movies: Vec<Movie>,
    hash: u64,
    save_path: String,
    movies_path: String,
}

impl MoviesLib {
    /// The movies are in strictly increasing order of their names.
    #[verifier::type_invariant]
    pub closed spec fn wf(self) -> bool {
        strictly_sorted(self.movies@)
    }

    /// The movies of the library, in order.
    pub closed spec fn items(self) -> Seq<Movie> {
        self.movies@
    }

    /// The signature of the directory as it was at the last scan.
    pub closed spec fn signature(self) -> u64 {
        self.hash
    }

    /// The scanned directory.
    pub closed spec fn root(self) -> Seq<char> {
        self.movies_path@
    }

    /// Where the state is saved.
    pub closed spec fn save_location(self) -> Seq<char> {
        self.save_path@
    }

    /// Both libraries have the same signature and are bound to the same
    /// places.
    pub open spec fn same_scan(self, after: MoviesLib) -> bool {
        &&& after.signature() == self.signature()
        &&& after.root() == self.root()
        &&& after.save_location() == self.save_location()
    }

    /// What `refresh` makes of a library: `after` is the library itself
    /// when the directory has the signature that the library has; else
    /// `after` has the directory's signature, holds the merge of the scan
    /// into the movies, and is bound to the same places.
    pub open spec fn refreshes(self, found: Seq<Movie>, hash: u64, after: MoviesLib) -> bool {
        if hash == self.signature() {
            after == self
        } else {
            &&& after.signature() == hash
            &&& is_reconciliation(self.items(), found, after.items())
            &&& after.root() == self.root()
            &&& after.save_location() == self.save_location()
        }
    }

    /// The movies of the library, sorted by name, no name twice.
    pub fn movies(&self) -> (movies: &Vec<Movie>)
        ensures
            movies@ == self.items(),
            strictly_sorted(movies@),
    {
        proof {
            use_type_invariant(self);
        }
        &self.movies
    }

    /// The signature of the directory as it was at the last scan.
    pub fn hash(&self) -> (hash: u64)
        ensures
            hash == self.signature(),
    {
        self.hash
    }

    /// The scanned directory.
    pub fn movies_path(&self) -> (path: &str)
        ensures
            path@ == self.root(),
    {
        self.movies_path.as_str()
    }

    /// Where the state is saved.
    pub fn save_path(&self) -> (path: &str)
        ensures
            path@ == self.save_location(),
    {
        self.save_path.as_str()
    }

    /// Where the state of a library over `movies_path` is saved.
    pub fn save_path_of(movies_path: &str) -> (save_path: String)
        ensures
            save_path@ == save_location_of(movies_path@),
    {
        String::from_str(movies_path).concat("/").concat(SAVE_FILE)
    }

    /// The signature of a directory whose entries have these names, in
    /// whatever order the walk yielded them.
    pub fn hash_dir(names: &[String]) -> (hash: u64)
        ensures
            hash == dir_signature(names@),
    {
        let none: Vec<String> = Vec::new();
        let list = reconcile(none.as_slice(), names);
        proof {
            lemma_dir_signature(names@, list@);
        }
        signature(list.as_slice())
    }

    /// Whether the entry, with what the prober said of it, is a movie.
    pub fn is_movie(entry: &Entry, duration: Option<i64>) -> (yes: bool)
        ensures
            yes == qualifies(*entry, duration),
    {
        if !Collector::is_allowed(entry.file_name.as_str()) {
            return false;
        }
        Collector::is_long_enough(duration)
    }

    /// The movie that the entry becomes, or `None` when it does not qualify.
    pub fn process_movie_entry(entry: &Entry, duration: Option<i64>) -> (movie: Option<Movie>)
        ensures
            movie == if qualifies(*entry, duration) {
                Some(movie_of(*entry))
            } else {
                None
            },
    {
        if !Self::is_movie(entry, duration) {
            return None;
        }
        Some(Movie { name: entry.file_name.clone(), path: entry.path.clone(), watched: false })
    }

    /// The library over `movies_path` that holds the merge of a scan into
    /// the movies that were known: the known movies that the scan found
    /// are kept, what the scan found is appended, all are sorted by name,
    /// and the first of each name stays.
    fn build_movies_lib(
        movies_path: &str,
        prev_movies: &Vec<Movie>,
        movies: Vec<Movie>,
        hash: u64,
        save_path: &str,
    ) -> (lib: MoviesLib)
        ensures
            is_reconciliation(prev_movies@, movies@, lib.items()),
            lib.signature() == hash,
            lib.root() == movies_path@,
            lib.save_location() == save_path@,
    {
        let mut all: Vec<Movie> = Vec::new();
        let mut i: usize = 0;
        while i < prev_movies.len()
            invariant
                i <= prev_movies@.len(),
                all@ == kept(prev_movies@.subrange(0, i as int), movies@),
            decreases prev_movies@.len() - i,
        {
            proof {
                assert(prev_movies@.subrange(0, i + 1).drop_last() =~= prev_movies@.subrange(
                    0,
                    i as int,
                ));
            }
            if par_holds(&movies, prev_movies[i].name.as_str()) {
                all.push(prev_movies[i].clone());
            }
            i += 1;
        }
        proof {
            assert(prev_movies@.subrange(0, prev_movies@.len() as int) =~= prev_movies@);
        }
        let ghost found = movies@;
        par_append(&mut all, movies);
        let ghost joined = all@;
        par_sort_by_name(&mut all);
        let merged = first_of_each(all.as_slice());
        proof {
            lemma_merge_steps(prev_movies@, found, joined, all@, merged@);
        }
        MoviesLib {
            movies: merged,
            hash,
            save_path: String::from_str(save_path),
            movies_path: String::from_str(movies_path),
        }
    }

    /// Makes the library of a run over `movies_path`: from the saved state,
    /// which is refused when its movies are not in strictly increasing order
    /// of their names, or from a fresh scan, of which the first movie of
    /// each name is taken, in the order of the names.
    pub fn init(movies_path: &str, source: Startup<Movie>) -> (result: Result<MoviesLib, Error>)
        ensures
            match source {
                Startup::Saved(movies, hash) => match result {
                    Ok(lib) => strictly_sorted(movies@) && lib.items() == movies@
                        && lib.signature() == hash,
                    Err(error) => !strictly_sorted(movies@) && error == Error::OutOfOrder,
                },
                Startup::Scanned(movies, hash) => match result {
                    Ok(lib) => is_reconciliation(Seq::empty(), movies@, lib.items())
                        && lib.signature() == hash,
                    Err(_) => false,
                },
            },
            result matches Ok(lib) ==> lib.wf() && lib.root() == movies_path@
                && lib.save_location() == save_location_of(movies_path@),
    {
        let save_path = Self::save_path_of(movies_path);
        match source {
            Startup::Saved(movies, hash) => {
                if in_order(movies.as_slice()) {
                    Ok(
                        MoviesLib {
                            movies,
                            hash,
                            save_path,
                            movies_path: String::from_str(movies_path),
                        },
                    )
                } else {
                    Err(Error::OutOfOrder)
                }
            },
            Startup::Scanned(movies, hash) => {
                let none: Vec<Movie> = Vec::new();
                Ok(Self::build_movies_lib(movies_path, &none, movies, hash, save_path.as_str()))
            },
        }
    }

    /// Whether the directory, whose entries now have these names, has
    /// changed since the last scan, so that a new scan is due.
    pub fn is_stale(&self, names: &[String]) -> (yes: bool)
        ensures
            yes == (dir_signature(names@) != self.signature()),
    {
        Self::hash_dir(names) != self.hash
    }

    /// Brings a scan in. `names` are the names of the directory's entries
    /// and `found` the movies among them. Nothing changes when the names
    /// have the signature that the library already has. Otherwise the
    /// movies become the merge of the scan into them, and the signature
    /// becomes that of the names.
    pub fn refresh(&mut self, names: &[String], found: Vec<Movie>)
        ensures
            old(self).refreshes(found@, dir_signature(names@), *final(self)),
    {
        let hash = Self::hash_dir(names);
        if hash != self.hash {
            let lib = Self::build_movies_lib(
                self.movies_path.as_str(),
                &self.movies,
                found,
                hash,
                self.save_path.as_str(),
            );
            *self = lib;
        }
    }

    /// The place of the movie of that name, found by binary search.
    pub fn get_index(&self, name: &str) -> (at: Option<usize>)
        ensures
            match at {
                Some(i) => i < self.items().len() && self.items()[i as int].name@ == name@,
                None => !holds(self.items(), name@),
            },
    {
        proof {
            use_type_invariant(self);
            lemma_strictly_sorted_is_sorted(self.movies@);
        }
        find(self.movies.as_slice(), name)
    }

    /// Puts a movie of the same name in the place of the one at `at`.
    fn put(&mut self, at: usize, movie: Movie)
        requires
            at < old(self).items().len(),
            movie.name@ == old(self).items()[at as int].name@,
        ensures
            final(self).items() == old(self).items().update(at as int, movie),
            old(self).same_scan(*final(self)),
    {
        proof {
            use_type_invariant(&*self);
            lemma_replace_keeps_order(self.movies@, at as int, movie);
        }
        let mut movies: Vec<Movie> = Vec::new();
        core::mem::swap(&mut self.movies, &mut movies);
        movies.set(at, movie);
        core::mem::swap(&mut self.movies, &mut movies);
    }

    /// Flips the mark of the movie of that name. Fails, and changes
    /// nothing, when the library holds no movie of that name.
    pub fn toggle_watched(&mut self, name: &str) -> (result: Result<(), Error>)
        ensures
            match result {
                Ok(_) => holds(old(self).items(), name@) && final(self).items() == toggled(
                    old(self).items(),
                    name@,
                ) && old(self).same_scan(*final(self)),
                Err(error) => !holds(old(self).items(), name@) && error == Error::NotFound
                    && *final(self) == *old(self),
            },
    {
        match self.get_index(name) {
            Some(i) => {
                proof {
                    use_type_invariant(&*self);
                    lemma_one_of_a_name(self.movies@, i as int);
                    assert(self.movies@[i as int].name_of() == name@);
                }
                let marked = Movie {
                    name: self.movies[i].name.clone(),
                    path: self.movies[i].path.clone(),
                    watched: !self.movies[i].watched,
                };
                self.put(i, marked);
                proof {
                    assert(self.movies@ =~= toggled(old(self).movies@, name@));
                }
                Ok(())
            },
            None => Err(Error::NotFound),
        }
    }

    /// Marks the movie of that name as watched. Fails, and changes nothing,
    /// when the library holds no movie of that name.
    pub fn set_watched(&mut self, name: &str) -> (result: Result<(), Error>)
        ensures
            match result {
                Ok(_) => holds(old(self).items(), name@) && final(self).items() == watched(
                    old(self).items(),
                    name@,
                ) && old(self).same_scan(*final(self)),
                Err(error) => !holds(old(self).items(), name@) && error == Error::NotFound
                    && *final(self) == *old(self),
            },
    {
        match self.get_index(name) {
            Some(i) => {
                proof {
                    use_type_invariant(&*self);
                    lemma_one_of_a_name(self.movies@, i as int);
                    assert(self.movies@[i as int].name_of() == name@);
                }
                let marked = Movie {
                    name: self.movies[i].name.clone(),
                    path: self.movies[i].path.clone(),
                    watched: true,
                };
                self.put(i, marked);
                proof {
                    assert(self.movies@ =~= watched(old(self).movies@, name@));
                }
                Ok(())
            },
            None => Err(Error::NotFound),
        }
    }

    /// The path of the movie of that name. Fails when the library holds no
    /// movie of that name.
    pub fn get_path(&self, name: &str) -> (result: Result<String, Error>)
        ensures
            match result {
                Ok(path) => exists|i: int|
                    0 <= i < self.items().len() && #[trigger] self.items()[i].name@ == name@
                        && path == self.items()[i].path,
                Err(error) => !holds(self.items(), name@) && error == Error::NotFound,
            },
    {
        match self.get_index(name) {
            Some(i) => Ok(self.movies[i].path.clone()),
            None => Err(Error::NotFound),
        }
    }
}

/// Refreshing twice with the same names and the same scan changes the
/// library only the first time.
pub proof fn lemma_refresh_idempotent(
    start: MoviesLib,
    found: Seq<Movie>,
    hash: u64,
    once: MoviesLib,
    twice: MoviesLib,
)
    requires
        start.refreshes(found, hash, once),
        once.refreshes(found, hash, twice),
    ensures
        twice == once,
{
}

/// A movie whose name a later scan still found is in the library after the
/// refresh exactly as it was before, watched if it was watched.
pub proof fn lemma_refresh_keeps_known(
    before: MoviesLib,
    found: Seq<Movie>,
    hash: u64,
    after: MoviesLib,
    i: int,
)
    requires
        before.wf(),
        before.refreshes(found, hash, after),
        0 <= i < before.items().len(),
        holds(found, before.items()[i].name@),
    ensures
        exists|j: int|
            0 <= j < after.items().len() && #[trigger] after.items()[j] == before.items()[i],
{
    if hash == before.signature() {
        assert(after.items()[i] == before.items()[i]);
    } else {
        lemma_reconciliation_keeps_known(before.items(), found, after.items(), i);
    }
}

/// After a refresh of a changed directory, the library holds no movie whose
/// name the scan did not find.
pub proof fn lemma_refresh_drops_vanished(
    before: MoviesLib,
    found: Seq<Movie>,
    hash: u64,
    after: MoviesLib,
    name: Seq<char>,
)
    requires
        before.refreshes(found, hash, after),
        hash != before.signature(),
        !holds(found, name),
    ensures
        !holds(after.items(), name),
{
}

/// The signature of a directory is that of any list that holds the names
/// of its entries in increasing order, each once.
pub proof fn lemma_dir_signature(names: Seq<String>, list: Seq<String>)
    requires
        is_name_list(names, list),
    ensures
        dir_signature(names) == signature_of(list),
{
    lemma_reconciliation_unique(Seq::<String>::empty(), names, list, name_list(names));
}

/// The signature of a directory depends on which names its entries have,
/// not on the order in which the walk yields them nor on how often a name
/// occurs.
pub proof fn lemma_dir_signature_any_order(
    names: Seq<String>,
    again: Seq<String>,
    list: Seq<String>,
    other: Seq<String>,
)
    requires
        forall|name: Seq<char>| holds(names, name) <==> holds(again, name),
        is_name_list(names, list),
        is_name_list(again, other),
    ensures
        dir_signature(names) == dir_signature(again),
{
    lemma_dir_signature(names, list);
    lemma_dir_signature(again, other);
    assert forall|name: Seq<char>| holds(list, name) <==> holds(other, name) by {
        assert(holds(list, name) <==> holds(names, name));
        assert(holds(other, name) <==> holds(again, name));
    }
    lemma_same_names_same_places(list, other);
    assert forall|i: int| 0 <= i < list.len() implies (#[trigger] list[i]).digest()
        == other[i].digest() by {
        assert(list[i].name_of() == other[i].name_of());
    }
    lemma_signature_by_digest(list, other);
}

} // verus!
