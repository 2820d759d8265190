//! Lists of named items: what it means for such a list to be sorted, the
//! items of one name in a list, and the verified operations from which a
//! scan result is ordered and merged into what is already known.

use vstd::prelude::*;
use crate::names::{
    compare, lemma_name_le_lt, lemma_name_le_transitive, lemma_name_lt_asymmetric,
    lemma_name_lt_connected, lemma_name_lt_irreflexive, lemma_name_lt_transitive, name_le,
    name_lt, Rank,
};

verus! {

/// An item that is kept and found again under its name.
pub trait Named: Sized {
    /// The name of the item.
    spec fn name_of(&self) -> Seq<char>;

    /// The name of the item.
    fn name(&self) -> (name: &str)
        ensures
            name@ == self.name_of(),
    ;

    /// A copy of the item, equal to it in every field.
    fn replica(&self) -> (copy: Self)
        ensures
            copy == *self,
    ;
}

/// A name is kept under itself.
impl Named for String {
    open spec fn name_of(&self) -> Seq<char> {
        self@
    }

    fn name(&self) -> (name: &str) {
        self.as_str()
    }

    fn replica(&self) -> (copy: Self) {
        self.clone()
    }
}

/// Names never decrease along the list.
pub open spec fn sorted<T: Named>(s: Seq<T>) -> bool {
    forall|i: int, j: int|
        0 <= i < j < s.len() ==> name_le(#[trigger] s[i].name_of(), #[trigger] s[j].name_of())
}

/// Names increase along the list, so that no name occurs twice.
pub open spec fn strictly_sorted<T: Named>(s: Seq<T>) -> bool {
    forall|i: int, j: int|
        0 <= i < j < s.len() ==> name_lt(#[trigger] s[i].name_of(), #[trigger] s[j].name_of())
}

/// Some item of the list has the name.
pub open spec fn holds<T: Named>(s: Seq<T>, name: Seq<char>) -> bool {
    exists|i: int| 0 <= i < s.len() && #[trigger] s[i].name_of() == name
}

/// The items of the list that have the name, in the order of the list.
pub open spec fn named<T: Named>(s: Seq<T>, name: Seq<char>) -> Seq<T>
    decreases s.len(),
{
    if s.len() == 0 {
        Seq::empty()
    } else if s.last().name_of() == name {
        named(s.drop_last(), name).push(s.last())
    } else {
        named(s.drop_last(), name)
    }
}

/// `out` holds the items of `s` in the order of their names, items of one
/// name in the order in which `s` has them.
pub open spec fn is_stable_sort<T: Named>(s: Seq<T>, out: Seq<T>) -> bool {
    &&& sorted(out)
    &&& out.len() == s.len()
    &&& forall|name: Seq<char>| #[trigger] named(out, name) == named(s, name)
}

/// `out` holds, in the order of their names, the first item of each name
/// that `s` holds, and nothing else.
pub open spec fn is_first_of_each<T: Named>(s: Seq<T>, out: Seq<T>) -> bool {
    &&& strictly_sorted(out)
    &&& forall|name: Seq<char>| holds(out, name) <==> holds(s, name)
    &&& forall|i: int|
        0 <= i < out.len() ==> #[trigger] out[i] == named(s, out[i].name_of())[0]
}

/// `out` is what a scan that found `found` leaves of the `known` items:
/// one item for each name that the scan found, in the order of the names;
/// the known item of that name where there is one, else the first that the
/// scan found.
pub open spec fn is_reconciliation<T: Named>(known: Seq<T>, found: Seq<T>, out: Seq<T>) -> bool {
    &&& strictly_sorted(out)
    &&& forall|name: Seq<char>| holds(out, name) <==> holds(found, name)
    &&& forall|i: int|
        0 <= i < out.len() ==> #[trigger] out[i] == named(known + found, out[i].name_of())[0]
}

/// What `named` makes of a list with one more item at its end.
pub proof fn lemma_named_push<T: Named>(s: Seq<T>, x: T, name: Seq<char>)
    ensures
        named(s.push(x), name) == if x.name_of() == name {
            named(s, name).push(x)
        } else {
            named(s, name)
        },
{
    assert(s.push(x).drop_last() =~= s);
}

/// The items of one name in a concatenation are those of the first part
/// followed by those of the second.
pub proof fn lemma_named_add<T: Named>(a: Seq<T>, b: Seq<T>, name: Seq<char>)
    ensures
        named(a + b, name) == named(a, name) + named(b, name),
    decreases b.len(),
{
    if b.len() == 0 {
        assert(a + b =~= a);
        assert(named(a, name) + named(b, name) =~= named(a, name));
    } else {
        lemma_named_add(a, b.drop_last(), name);
        assert((a + b).drop_last() =~= a + b.drop_last());
        assert((a + b).last() == b.last());
        if b.last().name_of() == name {
            assert(named(a, name) + named(b.drop_last(), name).push(b.last()) =~= (named(a, name)
                + named(b.drop_last(), name)).push(b.last()));
        }
    }
}

/// Every item that `named` gives has the name and is an item of the list.
pub proof fn lemma_named_members<T: Named>(s: Seq<T>, name: Seq<char>)
    ensures
        named(s, name).len() <= s.len(),
        forall|k: int|
            0 <= k < named(s, name).len() ==> (#[trigger] named(s, name)[k]).name_of() == name
                && s.contains(named(s, name)[k]),
    decreases s.len(),
{
    if s.len() > 0 {
        lemma_named_members(s.drop_last(), name);
        assert forall|k: int| 0 <= k < named(s, name).len() implies (#[trigger] named(
            s,
            name,
        )[k]).name_of() == name && s.contains(named(s, name)[k]) by {
            let rest = named(s.drop_last(), name);
            if k < rest.len() {
                let j = choose|j: int| 0 <= j < s.drop_last().len() && s.drop_last()[j] == rest[k];
                assert(s[j] == rest[k]);
            } else {
                assert(s[s.len() - 1] == named(s, name)[k]);
            }
        }
    }
}

/// A list holds a name exactly when `named` gives at least one item for it.
pub proof fn lemma_named_holds<T: Named>(s: Seq<T>, name: Seq<char>)
    ensures
        holds(s, name) <==> named(s, name).len() > 0,
    decreases s.len(),
{
    if s.len() > 0 {
        lemma_named_holds(s.drop_last(), name);
        if holds(s, name) {
            let i = choose|i: int| 0 <= i < s.len() && #[trigger] s[i].name_of() == name;
            if i < s.len() - 1 {
                assert(s.drop_last()[i].name_of() == name);
            }
        }
        if named(s, name).len() > 0 {
            if s.last().name_of() == name {
                assert(s[s.len() - 1].name_of() == name);
            } else {
                let i = choose|i: int|
                    0 <= i < s.drop_last().len() && #[trigger] s.drop_last()[i].name_of() == name;
                assert(s[i].name_of() == name);
            }
        }
    }
}

/// A list whose first item has the name gives that item first.
pub proof fn lemma_named_first<T: Named>(s: Seq<T>, name: Seq<char>)
    requires
        s.len() > 0,
        s[0].name_of() == name,
    ensures
        named(s, name).len() > 0,
        named(s, name)[0] == s[0],
    decreases s.len(),
{
    let rest = s.drop_last();
    if s.len() == 1 {
        assert(named(rest, name).len() == 0);
        assert(s.last() == s[0]);
    } else {
        lemma_named_first(rest, name);
        assert(rest[0] == s[0]);
    }
}

/// In a sorted list, an item whose predecessor has another name is the
/// first of its name.
pub proof fn lemma_named_first_of_run<T: Named>(s: Seq<T>, i: int)
    requires
        sorted(s),
        0 <= i < s.len(),
        i > 0 ==> s[i - 1].name_of() != s[i].name_of(),
    ensures
        named(s, s[i].name_of()).len() > 0,
        named(s, s[i].name_of())[0] == s[i],
{
    let name = s[i].name_of();
    let head = s.subrange(0, i);
    let tail = s.subrange(i, s.len() as int);
    assert(s =~= head + tail);
    lemma_named_add(head, tail, name);
    lemma_named_first(tail, name);
    lemma_named_holds(head, name);
    if holds(head, name) {
        let j = choose|j: int| 0 <= j < head.len() && #[trigger] head[j].name_of() == name;
        assert(s[j].name_of() == name);
        assert(name_le(s[j].name_of(), s[i - 1].name_of())) by {
            if j < i - 1 {
            } else {
                lemma_name_lt_irreflexive(name);
            }
        }
        assert(name_le(s[i - 1].name_of(), s[i].name_of()));
        lemma_name_lt_connected(s[i - 1].name_of(), name);
    }
    assert(named(head, name) + named(tail, name) =~= named(tail, name));
}

/// A strictly sorted list is sorted.
pub proof fn lemma_strictly_sorted_is_sorted<T: Named>(s: Seq<T>)
    requires
        strictly_sorted(s),
    ensures
        sorted(s),
{
    assert forall|i: int, j: int| 0 <= i < j < s.len() implies name_le(
        #[trigger] s[i].name_of(),
        #[trigger] s[j].name_of(),
    ) by {
        lemma_name_lt_asymmetric(s[i].name_of(), s[j].name_of());
    }
}

/// In a strictly sorted list the item of a name is the only one of it.
pub proof fn lemma_named_unique<T: Named>(s: Seq<T>, i: int)
    requires
        strictly_sorted(s),
        0 <= i < s.len(),
    ensures
        named(s, s[i].name_of()).len() > 0,
        named(s, s[i].name_of())[0] == s[i],
{
    lemma_strictly_sorted_is_sorted(s);
    if i > 0 {
        lemma_name_lt_asymmetric(s[i - 1].name_of(), s[i].name_of());
    }
    lemma_named_first_of_run(s, i);
}

/// What `holds` makes of a list with one more item at its end.
pub proof fn lemma_holds_push<T: Named>(s: Seq<T>, x: T, name: Seq<char>)
    ensures
        holds(s.push(x), name) <==> holds(s, name) || x.name_of() == name,
{
    let t = s.push(x);
    if holds(s, name) {
        let i = choose|i: int| 0 <= i < s.len() && #[trigger] s[i].name_of() == name;
        assert(t[i].name_of() == name);
    }
    if x.name_of() == name {
        assert(t[s.len() as int].name_of() == name);
    }
    if holds(t, name) {
        let i = choose|i: int| 0 <= i < t.len() && #[trigger] t[i].name_of() == name;
        if i < s.len() {
            assert(s[i].name_of() == name);
        }
    }
}

/// The items of one name after an insertion: those before the place, the
/// new item if it has the name, and those from the place on.
pub proof fn lemma_named_insert<T: Named>(s: Seq<T>, at: int, x: T, name: Seq<char>)
    requires
        0 <= at <= s.len(),
    ensures
        named(s, name) == named(s.subrange(0, at), name) + named(
            s.subrange(at, s.len() as int),
            name,
        ),
        named(s.insert(at, x), name) == named(s.subrange(0, at), name) + named(seq![x], name)
            + named(s.subrange(at, s.len() as int), name),
        named(seq![x], name) == if x.name_of() == name {
            seq![x]
        } else {
            Seq::<T>::empty()
        },
{
    let head = s.subrange(0, at);
    let tail = s.subrange(at, s.len() as int);
    assert(s =~= head + tail);
    assert(s.insert(at, x) =~= (head + seq![x]) + tail);
    lemma_named_add(head, tail, name);
    lemma_named_add(head + seq![x], tail, name);
    lemma_named_add(head, seq![x], name);
    assert(seq![x] =~= Seq::<T>::empty().push(x));
    lemma_named_push(Seq::<T>::empty(), x, name);
    assert(named(Seq::<T>::empty(), name) =~= Seq::<T>::empty());
    assert(Seq::<T>::empty().push(x) =~= seq![x]);
}

/// The known items whose name the scan found, in their order.
pub open spec fn kept<T: Named>(known: Seq<T>, found: Seq<T>) -> Seq<T>
    decreases known.len(),
{
    if known.len() == 0 {
        Seq::empty()
    } else if holds(found, known.last().name_of()) {
        kept(known.drop_last(), found).push(known.last())
    } else {
        kept(known.drop_last(), found)
    }
}

/// Of a name that the scan found every known item is kept, of any other
/// name none.
pub proof fn lemma_named_kept<T: Named>(known: Seq<T>, found: Seq<T>, name: Seq<char>)
    ensures
        named(kept(known, found), name) == if holds(found, name) {
            named(known, name)
        } else {
            Seq::<T>::empty()
        },
    decreases known.len(),
{
    if known.len() > 0 {
        lemma_named_kept(known.drop_last(), found, name);
        if holds(found, known.last().name_of()) {
            lemma_named_push(kept(known.drop_last(), found), known.last(), name);
        }
    }
}

/// The place of the first item whose name is not before `name`.
pub fn lower_bound<T: Named>(items: &[T], name: &str) -> (at: usize)
    requires
        sorted(items@),
    ensures
        at <= items@.len(),
        forall|i: int| 0 <= i < at ==> name_lt(#[trigger] items@[i].name_of(), name@),
        forall|i: int| at <= i < items@.len() ==> name_le(name@, #[trigger] items@[i].name_of()),
{
    let mut lo: usize = 0;
    let mut hi: usize = items.len();
    while lo < hi
        invariant
            lo <= hi <= items@.len(),
            sorted(items@),
            forall|i: int| 0 <= i < lo ==> name_lt(#[trigger] items@[i].name_of(), name@),
            forall|i: int|
                hi <= i < items@.len() ==> name_le(name@, #[trigger] items@[i].name_of()),
        decreases hi - lo,
    {
        let mid = lo + (hi - lo) / 2;
        match compare(items[mid].name(), name) {
            Rank::Before => {
                proof {
                    assert forall|i: int| 0 <= i < mid + 1 implies name_lt(
                        #[trigger] items@[i].name_of(),
                        name@,
                    ) by {
                        if i < mid {
                            lemma_name_le_lt(
                                items@[i].name_of(),
                                items@[mid as int].name_of(),
                                name@,
                            );
                        }
                    }
                }
                lo = mid + 1;
            },
            _ => {
                proof {
                    assert forall|i: int| mid <= i < items@.len() implies name_le(
                        name@,
                        #[trigger] items@[i].name_of(),
                    ) by {
                        if i > mid {
                            lemma_name_le_transitive(
                                name@,
                                items@[mid as int].name_of(),
                                items@[i].name_of(),
                            );
                        }
                    }
                }
                hi = mid;
            },
        }
    }
    lo
}

/// Looks a name up in a sorted list by binary search: the place of the
/// first item of that name, or `None` when the list holds no such item.
pub fn find<T: Named>(items: &[T], name: &str) -> (at: Option<usize>)
    requires
        sorted(items@),
    ensures
        match at {
            Some(i) => i < items@.len() && items@[i as int].name_of() == name@ && forall|j: int|
                0 <= j < i ==> (#[trigger] items@[j]).name_of() != name@,
            None => !holds(items@, name@),
        },
{
    let at = lower_bound(items, name);
    if at < items.len() {
        if compare(items[at].name(), name) == Rank::Same {
            proof {
                assert forall|j: int| 0 <= j < at implies (#[trigger] items@[j]).name_of()
                    != name@ by {
                    lemma_name_lt_asymmetric(items@[j].name_of(), name@);
                }
            }
            return Some(at);
        }
    }
    proof {
        if holds(items@, name@) {
            let k = choose|k: int|
                0 <= k < items@.len() && #[trigger] items@[k].name_of() == name@;
            if k < at {
                lemma_name_lt_irreflexive(name@);
            } else {
                if k > at {
                    assert(name_le(items@[at as int].name_of(), items@[k].name_of()));
                }
                assert(name_le(name@, items@[at as int].name_of()));
                lemma_name_lt_connected(name@, items@[at as int].name_of());
            }
        }
    }
    None
}

/// Whether some item of the list has the name; the list need not be sorted.
pub fn appears<T: Named>(items: &[T], name: &str) -> (found: bool)
    ensures
        found == holds(items@, name@),
{
    let mut i: usize = 0;
    while i < items.len()
        invariant
            i <= items@.len(),
            forall|k: int| 0 <= k < i ==> (#[trigger] items@[k]).name_of() != name@,
        decreases items@.len() - i,
    {
        if compare(items[i].name(), name) == Rank::Same {
            return true;
        }
        i += 1;
    }
    false
}

/// Orders the items by name. The sort is stable: items of one name stay in
/// the order in which they were given.
pub fn sort_by_name<T: Named>(items: Vec<T>) -> (out: Vec<T>)
    ensures
        is_stable_sort(items@, out@),
{
    let ghost given = items@;
    let mut rest = items;
    let mut out: Vec<T> = Vec::new();
    proof {
        assert(given.subrange(given.len() as int, given.len() as int) =~= Seq::<T>::empty());
        assert(rest@ =~= given.subrange(0, rest@.len() as int));
    }
    while rest.len() > 0
        invariant
            rest@.len() <= given.len(),
            rest@ == given.subrange(0, rest@.len() as int),
            sorted(out@),
            out@.len() + rest@.len() == given.len(),
            forall|name: Seq<char>| #[trigger]
                named(out@, name) == named(
                    given.subrange(rest@.len() as int, given.len() as int),
                    name,
                ),
        decreases rest@.len(),
    {
        let ghost before = out@;
        let ghost taken = given.subrange(rest@.len() as int, given.len() as int);
        let x = rest.pop().unwrap();
        let at = lower_bound(out.as_slice(), x.name());
        let ghost item = x;
        out.insert(at, x);
        proof {
            let n = rest@.len() as int;
            assert(rest@ =~= given.subrange(0, n));
            assert(item == given[n]);
            let now = given.subrange(n, given.len() as int);
            assert(now =~= seq![item] + taken);
            assert forall|i: int, j: int| 0 <= i < j < out@.len() implies name_le(
                #[trigger] out@[i].name_of(),
                #[trigger] out@[j].name_of(),
            ) by {
                if j < at {
                    assert(out@[i] == before[i] && out@[j] == before[j]);
                } else if j == at {
                    assert(out@[i] == before[i]);
                    lemma_name_lt_asymmetric(before[i].name_of(), item.name_of());
                } else if i < at {
                    assert(out@[i] == before[i] && out@[j] == before[j - 1]);
                    if i < j - 1 {
                    } else {
                        lemma_name_lt_irreflexive(before[i].name_of());
                    }
                } else if i == at {
                    assert(out@[j] == before[j - 1]);
                } else {
                    assert(out@[i] == before[i - 1] && out@[j] == before[j - 1]);
                }
            }
            assert forall|name: Seq<char>| #[trigger]
                named(out@, name) == named(now, name) by {
                lemma_named_insert(before, at as int, item, name);
                lemma_named_add(seq![item], taken, name);
                let head = before.subrange(0, at as int);
                lemma_named_holds(head, name);
                if item.name_of() == name && holds(head, name) {
                    let k = choose|k: int|
                        0 <= k < head.len() && #[trigger] head[k].name_of() == name;
                    assert(before[k].name_of() == name);
                    lemma_name_lt_irreflexive(name);
                }
                assert(named(head, name) + named(seq![item], name) + named(
                    before.subrange(at as int, before.len() as int),
                    name,
                ) =~= named(seq![item], name) + named(before, name));
            }
        }
    }
    proof {
        assert(given.subrange(0, given.len() as int) =~= given);
    }
    out
}

/// Of a sorted list, the first item of each name.
pub fn first_of_each<T: Named>(items: &[T]) -> (out: Vec<T>)
    requires
        sorted(items@),
    ensures
        is_first_of_each(items@, out@),
{
    let mut out: Vec<T> = Vec::new();
    let mut i: usize = 0;
    proof {
        assert(!holds(items@.subrange(0, 0), arbitrary::<Seq<char>>()));
    }
    while i < items.len()
        invariant
            i <= items@.len(),
            sorted(items@),
            strictly_sorted(out@),
            i == 0 ==> out@.len() == 0,
            out@.len() > 0 ==> out@.last().name_of() == items@[i - 1].name_of(),
            forall|name: Seq<char>|
                holds(out@, name) <==> holds(items@.subrange(0, i as int), name),
            forall|k: int|
                0 <= k < out@.len() ==> #[trigger] out@[k] == named(items@, out@[k].name_of())[0],
        decreases items@.len() - i,
    {
        let ghost before = out@;
        let ghost seen = items@.subrange(0, i as int);
        let first = if i == 0 {
            true
        } else {
            compare(items[i - 1].name(), items[i].name()) != Rank::Same
        };
        proof {
            assert(items@.subrange(0, i + 1) =~= seen.push(items@[i as int]));
        }
        if first {
            let x = items[i].replica();
            out.push(x);
            proof {
                let name = x.name_of();
                lemma_named_first_of_run(items@, i as int);
                assert forall|a: int, b: int| 0 <= a < b < out@.len() implies name_lt(
                    #[trigger] out@[a].name_of(),
                    #[trigger] out@[b].name_of(),
                ) by {
                    if b < before.len() {
                        assert(out@[a] == before[a] && out@[b] == before[b]);
                    } else {
                        assert(out@[a] == before[a]);
                        let last = before.last().name_of();
                        assert(name_le(items@[i - 1].name_of(), items@[i as int].name_of()));
                        if !name_lt(last, name) {
                            lemma_name_lt_connected(last, name);
                        }
                        if a < before.len() - 1 {
                            assert(name_lt(
                                before[a].name_of(),
                                before[before.len() - 1].name_of(),
                            ));
                            lemma_name_lt_transitive(before[a].name_of(), last, name);
                        }
                    }
                }
                assert forall|n: Seq<char>|
                    holds(out@, n) <==> holds(items@.subrange(0, i + 1), n) by {
                    lemma_holds_push(before, x, n);
                    lemma_holds_push(seen, items@[i as int], n);
                }
            }
        } else {
            proof {
                assert forall|n: Seq<char>|
                    holds(out@, n) <==> holds(items@.subrange(0, i + 1), n) by {
                    lemma_holds_push(seen, items@[i as int], n);
                    if items@[i as int].name_of() == n {
                        assert(seen[i - 1].name_of() == n);
                    }
                }
            }
        }
        i += 1;
    }
    proof {
        assert(items@.subrange(0, items@.len() as int) =~= items@);
    }
    out
}

/// The known items whose name the scan found; the others are dropped.
pub fn retain_found<T: Named>(known: &[T], found: &[T]) -> (out: Vec<T>)
    ensures
        out@ == kept(known@, found@),
{
    let mut out: Vec<T> = Vec::new();
    let mut i: usize = 0;
    while i < known.len()
        invariant
            i <= known@.len(),
            out@ == kept(known@.subrange(0, i as int), found@),
        decreases known@.len() - i,
    {
        proof {
            assert(known@.subrange(0, i + 1).drop_last() =~= known@.subrange(0, i as int));
        }
        if appears(found, known[i].name()) {
            out.push(known[i].replica());
        }
        i += 1;
    }
    proof {
        assert(known@.subrange(0, known@.len() as int) =~= known@);
    }
    out
}

/// The four steps of the merge give the reconciliation: keep the known
/// items that the scan found, append what the scan found, sort by name,
/// keep the first of each name.
pub proof fn lemma_merge_steps<T: Named>(
    known: Seq<T>,
    found: Seq<T>,
    joined: Seq<T>,
    ordered: Seq<T>,
    out: Seq<T>,
)
    requires
        joined == kept(known, found) + found,
        is_stable_sort(joined, ordered),
        is_first_of_each(ordered, out),
    ensures
        is_reconciliation(known, found, out),
{
    let retained = kept(known, found);
    assert forall|name: Seq<char>| #[trigger]
        named(ordered, name) == named(retained, name) + named(found, name) by {
        assert(named(ordered, name) == named(joined, name));
        lemma_named_add(retained, found, name);
    }
    assert forall|name: Seq<char>| holds(out, name) <==> holds(found, name) by {
        assert(named(ordered, name) == named(retained, name) + named(found, name));
        lemma_named_holds(ordered, name);
        lemma_named_holds(found, name);
        lemma_named_kept(known, found, name);
    }
    assert forall|k: int| 0 <= k < out.len() implies #[trigger] out[k] == named(
        known + found,
        out[k].name_of(),
    )[0] by {
        let name = out[k].name_of();
        assert(holds(out, name));
        assert(named(ordered, name) == named(retained, name) + named(found, name));
        lemma_named_kept(known, found, name);
        lemma_named_add(known, found, name);
    }
}

/// Merges a scan into what is known: keeps the known items that the scan
/// still found, appends everything the scan found, sorts by name, and keeps
/// the first item of each name. A known item therefore stands before a
/// found item of the same name and is the one that stays.
pub fn reconcile<T: Named>(known: &[T], found: &[T]) -> (out: Vec<T>)
    ensures
        is_reconciliation(known@, found@, out@),
{
    let mut all = retain_found(known, found);
    let ghost retained = all@;
    let mut i: usize = 0;
    while i < found.len()
        invariant
            i <= found@.len(),
            all@ == retained + found@.subrange(0, i as int),
        decreases found@.len() - i,
    {
        all.push(found[i].replica());
        proof {
            assert(found@.subrange(0, i + 1) =~= found@.subrange(0, i as int).push(
                found@[i as int],
            ));
            assert(all@ =~= retained + found@.subrange(0, i + 1));
        }
        i += 1;
    }
    let ghost joined = all@;
    let ordered = sort_by_name(all);
    let out = first_of_each(ordered.as_slice());
    proof {
        assert(found@.subrange(0, found@.len() as int) =~= found@);
        lemma_merge_steps(known@, found@, joined, ordered@, out@);
    }
    out
}

/// Every item of a list is among the items of its name.
pub proof fn lemma_named_contains<T: Named>(s: Seq<T>, i: int)
    requires
        0 <= i < s.len(),
    ensures
        named(s, s[i].name_of()).contains(s[i]),
    decreases s.len(),
{
    let name = s[i].name_of();
    if i == s.len() - 1 {
        let all = named(s, name);
        assert(all[all.len() - 1] == s[i]);
    } else {
        lemma_named_contains(s.drop_last(), i);
        let rest = named(s.drop_last(), name);
        let k = choose|k: int| 0 <= k < rest.len() && rest[k] == s.drop_last()[i];
        assert(named(s, name)[k] == s[i]);
    }
}

/// In a strictly sorted list no other item has the name of a given one.
pub proof fn lemma_one_of_a_name<T: Named>(s: Seq<T>, i: int)
    requires
        strictly_sorted(s),
        0 <= i < s.len(),
    ensures
        forall|k: int|
            0 <= k < s.len() && k != i ==> (#[trigger] s[k]).name_of() != s[i].name_of(),
{
    assert forall|k: int| 0 <= k < s.len() && k != i implies (#[trigger] s[k]).name_of()
        != s[i].name_of() by {
        if k < i {
            assert(name_lt(s[k].name_of(), s[i].name_of()));
        } else {
            assert(name_lt(s[i].name_of(), s[k].name_of()));
        }
        lemma_name_lt_irreflexive(s[i].name_of());
    }
}

/// Putting an item of the same name in the place of one keeps the order.
pub proof fn lemma_replace_keeps_order<T: Named>(s: Seq<T>, i: int, item: T)
    requires
        strictly_sorted(s),
        0 <= i < s.len(),
        item.name_of() == s[i].name_of(),
    ensures
        strictly_sorted(s.update(i, item)),
{
    let t = s.update(i, item);
    assert forall|a: int, b: int| 0 <= a < b < t.len() implies name_lt(
        #[trigger] t[a].name_of(),
        #[trigger] t[b].name_of(),
    ) by {
        assert(name_lt(s[a].name_of(), s[b].name_of()));
    }
}

/// A list in which each name is before the next is strictly sorted.
pub proof fn lemma_adjacent_order<T: Named>(s: Seq<T>)
    requires
        forall|k: int|
            1 <= k < s.len() ==> name_lt(#[trigger] s[k - 1].name_of(), s[k].name_of()),
    ensures
        strictly_sorted(s),
{
    assert forall|i: int, j: int| 0 <= i < j < s.len() implies name_lt(
        #[trigger] s[i].name_of(),
        #[trigger] s[j].name_of(),
    ) by {
        lemma_ascent(s, i, j);
    }
}

/// In such a list every name is before every later one.
proof fn lemma_ascent<T: Named>(s: Seq<T>, i: int, j: int)
    requires
        forall|k: int|
            1 <= k < s.len() ==> name_lt(#[trigger] s[k - 1].name_of(), s[k].name_of()),
        0 <= i < j < s.len(),
    ensures
        name_lt(s[i].name_of(), s[j].name_of()),
    decreases j - i,
{
    assert(name_lt(s[j - 1].name_of(), s[j].name_of()));
    if i < j - 1 {
        lemma_ascent(s, i, j - 1);
        lemma_name_lt_transitive(s[i].name_of(), s[j - 1].name_of(), s[j].name_of());
    }
}

/// Whether the items are in strictly increasing order of their names.
pub fn in_order<T: Named>(items: &[T]) -> (yes: bool)
    ensures
        yes == strictly_sorted(items@),
{
    let mut i: usize = 1;
    while i < items.len()
        invariant
            1 <= i,
            forall|k: int|
                1 <= k < i && k < items@.len() ==> name_lt(
                    #[trigger] items@[k - 1].name_of(),
                    items@[k].name_of(),
                ),
        decreases items@.len() - i,
    {
        if compare(items[i - 1].name(), items[i].name()) != Rank::Before {
            proof {
                assert(!name_lt(items@[i - 1].name_of(), items@[i as int].name_of()));
            }
            return false;
        }
        i += 1;
    }
    proof {
        lemma_adjacent_order(items@);
    }
    true
}

/// Two strictly sorted lists that hold the same names have the same name
/// at every place.
pub proof fn lemma_same_names_same_places<T: Named>(a: Seq<T>, b: Seq<T>)
    requires
        strictly_sorted(a),
        strictly_sorted(b),
        forall|name: Seq<char>| holds(a, name) <==> holds(b, name),
    ensures
        a.len() == b.len(),
        forall|i: int| 0 <= i < a.len() ==> (#[trigger] a[i]).name_of() == b[i].name_of(),
    decreases a.len(),
{
    if a.len() == 0 {
        if b.len() > 0 {
            assert(b[0].name_of() == b[0].name_of());
            assert(holds(b, b[0].name_of()));
        }
    } else {
        let top = a.last().name_of();
        assert(a[a.len() - 1].name_of() == top);
        assert(holds(a, top));
        let j = choose|j: int| 0 <= j < b.len() && #[trigger] b[j].name_of() == top;
        let other = b.last().name_of();
        assert(b[b.len() - 1].name_of() == other);
        assert(holds(b, other));
        let k = choose|k: int| 0 <= k < a.len() && #[trigger] a[k].name_of() == other;
        if j < b.len() - 1 {
            assert(name_lt(b[j].name_of(), b[b.len() - 1].name_of()));
            if k < a.len() - 1 {
                assert(name_lt(a[k].name_of(), a[a.len() - 1].name_of()));
                lemma_name_lt_asymmetric(top, other);
            } else {
                lemma_name_lt_irreflexive(top);
            }
        }
        assert(top == other);
        let x = a.drop_last();
        let y = b.drop_last();
        lemma_one_of_a_name(a, a.len() - 1);
        lemma_one_of_a_name(b, b.len() - 1);
        assert forall|name: Seq<char>| holds(x, name) <==> holds(y, name) by {
            if holds(x, name) {
                let i = choose|i: int| 0 <= i < x.len() && #[trigger] x[i].name_of() == name;
                assert(a[i].name_of() == name);
                assert(holds(a, name));
                let m = choose|m: int| 0 <= m < b.len() && #[trigger] b[m].name_of() == name;
                assert(y[m].name_of() == name);
            }
            if holds(y, name) {
                let i = choose|i: int| 0 <= i < y.len() && #[trigger] y[i].name_of() == name;
                assert(b[i].name_of() == name);
                assert(holds(b, name));
                let m = choose|m: int| 0 <= m < a.len() && #[trigger] a[m].name_of() == name;
                assert(x[m].name_of() == name);
            }
        }
        assert forall|i: int, m: int| 0 <= i < m < x.len() implies name_lt(
            #[trigger] x[i].name_of(),
            #[trigger] x[m].name_of(),
        ) by {
            assert(name_lt(a[i].name_of(), a[m].name_of()));
        }
        assert forall|i: int, m: int| 0 <= i < m < y.len() implies name_lt(
            #[trigger] y[i].name_of(),
            #[trigger] y[m].name_of(),
        ) by {
            assert(name_lt(b[i].name_of(), b[m].name_of()));
        }
        lemma_same_names_same_places(x, y);
        assert forall|i: int| 0 <= i < a.len() implies (#[trigger] a[i]).name_of()
            == b[i].name_of() by {
            if i < a.len() - 1 {
                assert(x[i].name_of() == y[i].name_of());
            }
        }
    }
}

/// A scan and what is known leave one list only: two lists that both are
/// their reconciliation are the same list.
pub proof fn lemma_reconciliation_unique<T: Named>(
    known: Seq<T>,
    found: Seq<T>,
    a: Seq<T>,
    b: Seq<T>,
)
    requires
        is_reconciliation(known, found, a),
        is_reconciliation(known, found, b),
    ensures
        a == b,
{
    lemma_same_names_same_places(a, b);
    assert forall|i: int| 0 <= i < a.len() implies a[i] == b[i] by {
        assert(a[i].name_of() == b[i].name_of());
    }
    assert(a =~= b);
}

/// A list has one stable sort only: two lists that both are a stable sort
/// of it are the same list.
pub proof fn lemma_stable_sort_unique<T: Named>(s: Seq<T>, a: Seq<T>, b: Seq<T>)
    requires
        is_stable_sort(s, a),
        is_stable_sort(s, b),
    ensures
        a == b,
{
    assert forall|name: Seq<char>| #[trigger] named(a, name) == named(b, name) by {
        assert(named(a, name) == named(s, name));
        assert(named(b, name) == named(s, name));
    }
    lemma_sorted_same_named(a, b);
}

/// Two sorted lists that have the same items of every name are the same
/// list.
pub proof fn lemma_sorted_same_named<T: Named>(a: Seq<T>, b: Seq<T>)
    requires
        sorted(a),
        sorted(b),
        forall|name: Seq<char>| #[trigger] named(a, name) == named(b, name),
    ensures
        a == b,
    decreases a.len(),
{
    if a.len() == 0 {
        if b.len() > 0 {
            let name = b[0].name_of();
            assert(holds(b, name));
            lemma_named_holds(b, name);
            assert(named(a, name) == named(b, name));
        }
        assert(a =~= b);
    } else {
        let top = a.last().name_of();
        assert(a[a.len() - 1].name_of() == top);
        assert(named(a, top) == named(b, top));
        lemma_named_holds(a, top);
        lemma_named_holds(b, top);
        let other = b.last().name_of();
        assert(b[b.len() - 1].name_of() == other);
        assert(named(a, other) == named(b, other));
        lemma_named_holds(a, other);
        lemma_named_holds(b, other);
        let j = choose|j: int| 0 <= j < b.len() && #[trigger] b[j].name_of() == top;
        let k = choose|k: int| 0 <= k < a.len() && #[trigger] a[k].name_of() == other;
        assert(name_le(top, other)) by {
            if j < b.len() - 1 {
                assert(name_le(b[j].name_of(), b[b.len() - 1].name_of()));
            } else {
                lemma_name_lt_irreflexive(top);
            }
        }
        assert(name_le(other, top)) by {
            if k < a.len() - 1 {
                assert(name_le(a[k].name_of(), a[a.len() - 1].name_of()));
            } else {
                lemma_name_lt_irreflexive(other);
            }
        }
        lemma_name_lt_connected(top, other);
        let x = a.drop_last();
        let y = b.drop_last();
        assert(named(a, top) == named(x, top).push(a.last()));
        assert(named(b, top) == named(y, top).push(b.last()));
        assert(a.last() == named(a, top).last());
        assert(b.last() == named(b, top).last());
        assert forall|name: Seq<char>| #[trigger] named(x, name) == named(y, name) by {
            assert(named(a, name) == named(b, name));
            if name == top {
                assert(named(x, top) =~= named(a, top).drop_last());
                assert(named(y, top) =~= named(b, top).drop_last());
            }
        }
        assert forall|i: int, m: int| 0 <= i < m < x.len() implies name_le(
            #[trigger] x[i].name_of(),
            #[trigger] x[m].name_of(),
        ) by {
            assert(name_le(a[i].name_of(), a[m].name_of()));
        }
        assert forall|i: int, m: int| 0 <= i < m < y.len() implies name_le(
            #[trigger] y[i].name_of(),
            #[trigger] y[m].name_of(),
        ) by {
            assert(name_le(b[i].name_of(), b[m].name_of()));
        }
        lemma_sorted_same_named(x, y);
        assert(a =~= x.push(a.last()));
        assert(b =~= y.push(b.last()));
    }
}

/// No two items of the list have the same name.
pub open spec fn distinct_names<T: Named>(s: Seq<T>) -> bool {
    forall|i: int, j: int|
        0 <= i < s.len() && 0 <= j < s.len() && i != j ==> (#[trigger] s[i]).name_of() != (
        #[trigger] s[j]).name_of()
}

/// Both lists hold the same items, in whatever order.
pub open spec fn same_members<T: Named>(s: Seq<T>, t: Seq<T>) -> bool {
    forall|item: T| s.contains(item) <==> t.contains(item)
}

/// In a list without a repeated name each item is the only one of its name.
pub proof fn lemma_named_distinct<T: Named>(s: Seq<T>, i: int)
    requires
        distinct_names(s),
        0 <= i < s.len(),
    ensures
        named(s, s[i].name_of()) == seq![s[i]],
    decreases s.len(),
{
    let name = s[i].name_of();
    let rest = s.drop_last();
    if i == s.len() - 1 {
        lemma_named_holds(rest, name);
        if holds(rest, name) {
            let k = choose|k: int| 0 <= k < rest.len() && #[trigger] rest[k].name_of() == name;
            assert(s[k].name_of() == s[i].name_of());
        }
        assert(named(s, name) =~= seq![s[i]]);
    } else {
        assert(s[s.len() - 1].name_of() != s[i].name_of());
        assert forall|a: int, b: int|
            0 <= a < rest.len() && 0 <= b < rest.len() && a != b implies (
        #[trigger] rest[a]).name_of() != (#[trigger] rest[b]).name_of() by {
            assert(s[a].name_of() != s[b].name_of());
        }
        lemma_named_distinct(rest, i);
    }
}

/// Two lists without a repeated name that hold the same items have the
/// same stable sort: the order in which the items arrive does not show in
/// the sorted list.
pub proof fn lemma_stable_sort_any_order<T: Named>(s: Seq<T>, t: Seq<T>, a: Seq<T>, b: Seq<T>)
    requires
        distinct_names(s),
        distinct_names(t),
        same_members(s, t),
        is_stable_sort(s, a),
        is_stable_sort(t, b),
    ensures
        a == b,
{
    assert forall|name: Seq<char>| #[trigger] named(a, name) == named(b, name) by {
        assert(named(a, name) == named(s, name));
        assert(named(b, name) == named(t, name));
        lemma_named_holds(s, name);
        lemma_named_holds(t, name);
        if holds(s, name) {
            let i = choose|i: int| 0 <= i < s.len() && #[trigger] s[i].name_of() == name;
            lemma_named_distinct(s, i);
            assert(s.contains(s[i]));
            assert(t.contains(s[i]));
            let j = choose|j: int| 0 <= j < t.len() && t[j] == s[i];
            lemma_named_distinct(t, j);
        } else if holds(t, name) {
            let j = choose|j: int| 0 <= j < t.len() && #[trigger] t[j].name_of() == name;
            assert(t.contains(t[j]));
            assert(s.contains(t[j]));
            let i = choose|i: int| 0 <= i < s.len() && s[i] == t[j];
            assert(s[i].name_of() == name);
        } else {
            assert(named(s, name) =~= named(t, name));
        }
    }
    lemma_sorted_same_named(a, b);
}

/// A known item whose name the scan found is in the reconciliation exactly
/// as it was known.
pub proof fn lemma_reconciliation_keeps_known<T: Named>(
    known: Seq<T>,
    found: Seq<T>,
    out: Seq<T>,
    i: int,
)
    requires
        strictly_sorted(known),
        is_reconciliation(known, found, out),
        0 <= i < known.len(),
        holds(found, known[i].name_of()),
    ensures
        exists|j: int| 0 <= j < out.len() && #[trigger] out[j] == known[i],
{
    let name = known[i].name_of();
    assert(holds(out, name));
    let j = choose|j: int| 0 <= j < out.len() && #[trigger] out[j].name_of() == name;
    lemma_named_unique(known, i);
    lemma_named_add(known, found, name);
    assert(out[j] == named(known + found, name)[0]);
}

/// An item of the reconciliation whose name was not known is the first
/// that the scan found of that name.
pub proof fn lemma_reconciliation_adopts_found<T: Named>(
    known: Seq<T>,
    found: Seq<T>,
    out: Seq<T>,
    j: int,
)
    requires
        is_reconciliation(known, found, out),
        0 <= j < out.len(),
        !holds(known, out[j].name_of()),
    ensures
        holds(found, out[j].name_of()),
        out[j] == named(found, out[j].name_of())[0],
{
    let name = out[j].name_of();
    assert(holds(out, name));
    lemma_named_add(known, found, name);
    lemma_named_holds(known, name);
    assert(named(known, name) + named(found, name) =~= named(found, name));
}

} // verus!
