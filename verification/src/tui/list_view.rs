//! The listing: which movies are shown, and in what order.

use vstd::multiset::Multiset;
use vstd::prelude::*;
use vstd::string::StringExecFns;
use crate::collector::Movie;
use crate::names::{
    compare, lemma_name_le_lt, lemma_name_le_transitive, lemma_name_lt_asymmetric,
    lemma_name_lt_connected, name_lt, Rank,
};
use crate::tui::filter_view::Filter;

verus! {

/// The text in lower case, as `str::to_lowercase` of the standard library
/// gives it.
pub uninterp spec fn lowercase_of(text: Seq<char>) -> Seq<char>;

/// Calls `str::to_lowercase`. Taken on trust: the result depends on the
/// text alone.
#[verifier::external_body]
fn lowercase(text: &str) -> (lower: String)
    ensures
        lower@ == lowercase_of(text@),
{
    text.to_lowercase()
}

/// `a` comes before `b` by their names in lower case, or, where these are
/// the same, by their names.
pub open spec fn lowercase_before(a: Seq<char>, b: Seq<char>) -> bool {
    let x = lowercase_of(a);
    let y = lowercase_of(b);
    name_lt(x, y) || (x == y && name_lt(a, b))
}

/// Whether `a` comes before `b` by their names in lower case, or, where
/// these are the same, by their names.
pub fn by_lowercase_name(a: &str, b: &str) -> (yes: bool)
    ensures
        yes == lowercase_before(a@, b@),
{
    let x = lowercase(a);
    let y = lowercase(b);
    match compare(x.as_str(), y.as_str()) {
        Rank::Before => true,
        Rank::Same => compare(a, b) == Rank::Before,
        Rank::After => false,
    }
}

/// The order by lower-case names is asymmetric, and what is not after a
/// name is not after any name that this one is not after.
pub proof fn lemma_lowercase_order(a: Seq<char>, b: Seq<char>, c: Seq<char>)
    ensures
        lowercase_before(a, b) ==> !lowercase_before(b, a),
        !lowercase_before(b, a) && !lowercase_before(c, b) ==> !lowercase_before(c, a),
{
    let x = lowercase_of(a);
    let y = lowercase_of(b);
    let z = lowercase_of(c);
    if name_lt(x, y) {
        lemma_name_lt_asymmetric(x, y);
    }
    if name_lt(a, b) {
        lemma_name_lt_asymmetric(a, b);
    }
    if name_lt(z, x) && !name_lt(z, y) {
        lemma_name_le_lt(y, z, x);
    }
    if !name_lt(y, x) && !name_lt(x, y) {
        lemma_name_lt_connected(x, y);
    }
    if !name_lt(z, y) && !name_lt(y, z) {
        lemma_name_lt_connected(y, z);
    }
    if !name_lt(b, a) && !name_lt(c, b) {
        lemma_name_le_transitive(a, b, c);
    }
}

/// An item that a listing shows at its place among the others.
pub trait Listed: Sized {
    /// This item is shown before the other.
    spec fn shown_before(&self, other: &Self) -> bool;

    /// Whether this item is shown before the other.
    fn shows_before(&self, other: &Self) -> (yes: bool)
        ensures
            yes == self.shown_before(other),
    ;

    /// If `a` is shown before `b`, then `b` is not shown before `a`.
    proof fn lemma_shown_asymmetric(a: &Self, b: &Self)
        requires
            a.shown_before(b),
        ensures
            !b.shown_before(a),
    ;

    /// If `c` is not shown before `b` and `b` not before `a`, then `c` is
    /// not shown before `a`.
    proof fn lemma_shown_chain(a: &Self, b: &Self, c: &Self)
        requires
            !b.shown_before(a),
            !c.shown_before(b),
        ensures
            !c.shown_before(a),
    ;
}

/// No item of the list is shown before one that stands earlier in it.
pub open spec fn display_sorted<T: Listed>(s: Seq<T>) -> bool {
    forall|i: int, j: int|
        #![trigger s[i], s[j]]
        0 <= i < j < s.len() ==> !s[j].shown_before(&s[i])
}

/// Unwatched movies come first, in the order of their names in lower case;
/// then the watched ones, the one watched last first. Movies that this does
/// not tell apart are shown in the order of their names.
impl Listed for Movie {
    open spec fn shown_before(&self, other: &Self) -> bool {
        match (self.date_watched, other.date_watched) {
            (None, None) => lowercase_before(self.name@, other.name@),
            (None, Some(_)) => true,
            (Some(_), None) => false,
            (Some(x), Some(y)) => x.is_after(y) || (x.instant() == y.instant() && name_lt(
                self.name@,
                other.name@,
            )),
        }
    }

    fn shows_before(&self, other: &Self) -> (yes: bool) {
        match (self.date_watched, other.date_watched) {
            (None, None) => by_lowercase_name(self.name.as_str(), other.name.as_str()),
            (None, Some(_)) => true,
            (Some(_), None) => false,
            (Some(x), Some(y)) => {
                if x.after(&y) {
                    true
                } else if y.after(&x) {
                    false
                } else {
                    compare(self.name.as_str(), other.name.as_str()) == Rank::Before
                }
            },
        }
    }

    proof fn lemma_shown_asymmetric(a: &Self, b: &Self) {
        lemma_lowercase_order(a.name@, b.name@, a.name@);
        if name_lt(a.name@, b.name@) {
            lemma_name_lt_asymmetric(a.name@, b.name@);
        }
    }

    proof fn lemma_shown_chain(a: &Self, b: &Self, c: &Self) {
        lemma_lowercase_order(a.name@, b.name@, c.name@);
        if !name_lt(b.name@, a.name@) && !name_lt(c.name@, b.name@) {
            lemma_name_le_transitive(a.name@, b.name@, c.name@);
        }
    }
}

/// Movies that are not watched come first, then the watched ones; both in
/// the order of their names in lower case, and in the order of their names
/// where that does not tell them apart.
impl Listed for crate::movies_archive::Movie {
    open spec fn shown_before(&self, other: &Self) -> bool {
        if self.watched == other.watched {
            lowercase_before(self.name@, other.name@)
        } else {
            other.watched
        }
    }

    fn shows_before(&self, other: &Self) -> (yes: bool) {
        if self.watched == other.watched {
            by_lowercase_name(self.name.as_str(), other.name.as_str())
        } else {
            other.watched
        }
    }

    proof fn lemma_shown_asymmetric(a: &Self, b: &Self) {
        lemma_lowercase_order(a.name@, b.name@, a.name@);
    }

    proof fn lemma_shown_chain(a: &Self, b: &Self, c: &Self) {
        lemma_lowercase_order(a.name@, b.name@, c.name@);
    }
}

/// The movies that the filter lets through, in their order.
pub open spec fn admitted(movies: Seq<Movie>, filter: Filter) -> Seq<Movie>
    decreases movies.len(),
{
    if movies.len() == 0 {
        Seq::empty()
    } else if filter.admits(movies.last()) {
        admitted(movies.drop_last(), filter).push(movies.last())
    } else {
        admitted(movies.drop_last(), filter)
    }
}

/// `shown` is the listing of the movies under the filter: the movies that
/// the filter lets through, each as often as it occurs, in the order in
/// which they are shown.
pub open spec fn is_listing(movies: Seq<Movie>, filter: Filter, shown: Seq<Movie>) -> bool {
    display_sorted(shown) && shown.to_multiset() == admitted(movies, filter).to_multiset()
}

/// The label with which a listing marks a watched movie.
pub open spec fn label_of(name: Seq<char>, watched: bool) -> Seq<char> {
    if watched {
        "[WATCHED] "@ + name
    } else {
        name
    }
}

/// Brings the items into the order in which they are shown.
pub fn in_display_order<T: Listed>(movies: Vec<T>) -> (shown: Vec<T>)
    ensures
        display_sorted(shown@),
        shown@.to_multiset() == movies@.to_multiset(),
{
    broadcast use vstd::seq_lib::group_to_multiset_ensures;

    let ghost given = movies@;
    let mut rest = movies;
    let mut shown: Vec<T> = Vec::new();
    proof {
        assert(shown@.to_multiset().add(rest@.to_multiset()) =~= given.to_multiset());
    }
    while rest.len() > 0
        invariant
            display_sorted(shown@),
            shown@.to_multiset().add(rest@.to_multiset()) == given.to_multiset(),
        decreases rest@.len(),
    {
        let ghost before = shown@;
        let ghost waiting = rest@;
        let movie = rest.pop().unwrap();
        let mut at: usize = shown.len();
        while at > 0 && movie.shows_before(&shown[at - 1])
            invariant
                at <= shown@.len(),
                forall|i: int|
                    #![trigger shown@[i]]
                    at <= i < shown@.len() ==> movie.shown_before(&shown@[i]),
            decreases at,
        {
            at -= 1;
        }
        let ghost item = movie;
        shown.insert(at, movie);
        proof {
            assert forall|i: int, j: int|
                #![trigger shown@[i], shown@[j]]
                0 <= i < j < shown@.len() implies !shown@[j].shown_before(&shown@[i]) by {
                if j < at {
                    assert(shown@[i] == before[i] && shown@[j] == before[j]);
                } else if j == at {
                    assert(shown@[i] == before[i]);
                    if i < at - 1 {
                        assert(!before[at - 1].shown_before(&before[i]));
                        T::lemma_shown_chain(&before[i], &before[at - 1], &item);
                    }
                } else if i < at {
                    assert(shown@[i] == before[i] && shown@[j] == before[j - 1]);
                } else if i == at {
                    assert(shown@[j] == before[j - 1]);
                    T::lemma_shown_asymmetric(&item, &before[j - 1]);
                } else {
                    assert(shown@[i] == before[i - 1] && shown@[j] == before[j - 1]);
                }
            }
            assert(waiting =~= rest@.push(item));
            vstd::seq_lib::to_multiset_build(rest@, item);
            assert(shown@.remove(at as int) =~= before);
            assert(shown@[at as int] == item);
            vstd::seq_lib::to_multiset_remove(shown@, at as int);
            shown@.to_multiset_ensures();
            assert(shown@.contains(item));
            assert(shown@.to_multiset().count(item) > 0);
            assert(shown@.to_multiset() =~= before.to_multiset().insert(item));
            assert(shown@.to_multiset().add(rest@.to_multiset()) =~= before.to_multiset().add(
                waiting.to_multiset(),
            ));
        }
    }
    proof {
        assert(rest@.to_multiset() =~= Multiset::<T>::empty());
        assert(shown@.to_multiset().add(rest@.to_multiset()) =~= shown@.to_multiset());
    }
    shown
}

/// The movies that the filter lets through, in their order.
pub fn select(movies: &[Movie], filter: &Filter) -> (chosen: Vec<Movie>)
    ensures
        chosen@ == admitted(movies@, *filter),
{
    let mut chosen: Vec<Movie> = Vec::new();
    let mut i: usize = 0;
    while i < movies.len()
        invariant
            i <= movies@.len(),
            chosen@ == admitted(movies@.subrange(0, i as int), *filter),
        decreases movies@.len() - i,
    {
        proof {
            assert(movies@.subrange(0, i + 1).drop_last() =~= movies@.subrange(0, i as int));
        }
        if filter.accepts(&movies[i]) {
            chosen.push(movies[i].clone());
        }
        i += 1;
    }
    proof {
        assert(movies@.subrange(0, movies@.len() as int) =~= movies@);
    }
    chosen
}

/// The listing of the movies under the filter.
pub fn listing(movies: &[Movie], filter: &Filter) -> (shown: Vec<Movie>)
    ensures
        is_listing(movies@, *filter, shown@),
{
    in_display_order(select(movies, filter))
}

/// The rows of a listing: for each movie the text that is shown and the
/// name by which the movie is found again. Both are its name.
pub fn rows(shown: &[Movie]) -> (rows: Vec<(String, String)>)
    ensures
        rows@.len() == shown@.len(),
        forall|i: int|
            0 <= i < shown@.len() ==> (#[trigger] rows@[i]).0 == shown@[i].name && rows@[i].1
                == shown@[i].name,
{
    let mut rows: Vec<(String, String)> = Vec::new();
    let mut i: usize = 0;
    while i < shown.len()
        invariant
            i <= shown@.len(),
            rows@.len() == i,
            forall|k: int|
                0 <= k < i ==> (#[trigger] rows@[k]).0 == shown@[k].name && rows@[k].1
                    == shown@[k].name,
        decreases shown@.len() - i,
    {
        rows.push((shown[i].name.clone(), shown[i].name.clone()));
        i += 1;
    }
    rows
}

/// The label with which a listing marks a watched movie.
pub fn label(name: &str, watched: bool) -> (text: String)
    ensures
        text@ == label_of(name@, watched),
{
    if watched {
        String::from_str("[WATCHED] ").concat(name)
    } else {
        String::from_str(name)
    }
}

/// The rows of a listing that marks the watched movies: for each movie its
/// label and the name by which the movie is found again.
pub fn marked_rows(shown: &[crate::movies_archive::Movie]) -> (rows: Vec<(String, String)>)
    ensures
        rows@.len() == shown@.len(),
        forall|i: int|
            0 <= i < shown@.len() ==> (#[trigger] rows@[i]).0@ == label_of(
                shown@[i].name@,
                shown@[i].watched,
            ) && rows@[i].1 == shown@[i].name,
{
    let mut rows: Vec<(String, String)> = Vec::new();
    let mut i: usize = 0;
    while i < shown.len()
        invariant
            i <= shown@.len(),
            rows@.len() == i,
            forall|k: int|
                0 <= k < i ==> (#[trigger] rows@[k]).0@ == label_of(
                    shown@[k].name@,
                    shown@[k].watched,
                ) && rows@[k].1 == shown@[k].name,
        decreases shown@.len() - i,
    {
        rows.push((label(shown[i].name.as_str(), shown[i].watched), shown[i].name.clone()));
        i += 1;
    }
    rows
}

} // verus!
