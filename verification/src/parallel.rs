//! The three steps of the merge that run on rayon's thread pool. Verus does
//! not see inside rayon: what each of these functions states of its result
//! is taken from rayon's documentation and source, not proved.

use rayon::iter::{IntoParallelRefIterator, ParallelExtend, ParallelIterator};
use rayon::slice::ParallelSliceMut;
use std::cmp::Ordering;
use vstd::prelude::*;
use crate::catalogue::{holds, is_stable_sort};
use crate::movies_archive::Movie;
use crate::names::{compare, lemma_name_lt_asymmetric, name_lt, Rank};

verus! {

/// Whether the movie has the name.
pub fn has_name(movie: &Movie, name: &str) -> (yes: bool)
    ensures
        yes == (movie.name@ == name@),
{
    compare(movie.name.as_str(), name) == Rank::Same
}

/// How two movies stand to each other in the order of their names.
pub fn order(a: &Movie, b: &Movie) -> (o: Ordering)
    ensures
        o == Ordering::Less <==> name_lt(a.name@, b.name@),
        o == Ordering::Greater <==> name_lt(b.name@, a.name@),
        o == Ordering::Equal <==> a.name@ == b.name@,
{
    proof {
        if name_lt(a.name@, b.name@) {
            lemma_name_lt_asymmetric(a.name@, b.name@);
        }
    }
    match compare(a.name.as_str(), b.name.as_str()) {
        Rank::Before => Ordering::Less,
        Rank::Same => Ordering::Equal,
        Rank::After => Ordering::Greater,
    }
}

/// Calls rayon's `ParallelIterator::any` on the movies, with `has_name` as
/// the predicate. Taken on trust: the result is `true` exactly when some
/// movie of the list satisfies the predicate, that is, has the name.
#[verifier::external_body]
pub(crate) fn par_holds(movies: &Vec<Movie>, name: &str) -> (yes: bool)
    ensures
        yes == holds(movies@, name@),
{
    movies.par_iter().any(|movie| has_name(movie, name))
}

/// Calls rayon's `ParallelExtend::par_extend` of `Vec`. Taken on trust: the
/// vector is afterwards what it was, followed by the items of `more` in
/// their order.
#[verifier::external_body]
pub(crate) fn par_append(target: &mut Vec<Movie>, more: Vec<Movie>)
    ensures
        final(target)@ == old(target)@ + more@,
{
    target.par_extend(more);
}

/// Calls rayon's `ParallelSliceMut::par_sort_by` with `order` as the
/// comparator. Taken on trust: the sort is stable, so the vector holds
/// afterwards the same movies in the order of their names, movies of one
/// name in the order they had.
#[verifier::external_body]
pub(crate) fn par_sort_by_name(movies: &mut Vec<Movie>)
    ensures
        is_stable_sort(old(movies)@, final(movies)@),
{
    movies.par_sort_by(|a, b| order(a, b));
}

} // verus!
