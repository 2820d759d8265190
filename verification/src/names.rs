//! The order in which names are kept: byte-wise lexicographic order of
//! their UTF-8 encoding.

use vstd::prelude::*;
use vstd::utf8::*;

verus! {

/// The bytes by which a name is ordered and found again.
pub open spec fn key(name: Seq<char>) -> Seq<u8> {
    encode_utf8(name)
}

/// Strict lexicographic order on byte strings: a proper prefix comes first,
/// otherwise the first differing byte decides.
pub open spec fn precedes(a: Seq<u8>, b: Seq<u8>) -> bool
    decreases a.len(),
{
    if b.len() == 0 {
        false
    } else if a.len() == 0 {
        true
    } else if a[0] != b[0] {
        a[0] < b[0]
    } else {
        precedes(a.drop_first(), b.drop_first())
    }
}

/// `a` is ordered strictly before `b`.
pub open spec fn name_lt(a: Seq<char>, b: Seq<char>) -> bool {
    precedes(key(a), key(b))
}

/// `a` is ordered before `b`, or is the same name.
pub open spec fn name_le(a: Seq<char>, b: Seq<char>) -> bool {
    !name_lt(b, a)
}

/// How one name stands to another.
#[derive(Clone, Copy, PartialEq, Eq, Debug, Structural)]
pub enum Rank {
    /// The first name is ordered before the second.
    Before,
    /// Both are the same name.
    Same,
    /// The first name is ordered after the second.
    After,
}

/// The rank of `a` relative to `b` in the order of names.
pub open spec fn rank_of(a: Seq<char>, b: Seq<char>) -> Rank {
    if name_lt(a, b) {
        Rank::Before
    } else if name_lt(b, a) {
        Rank::After
    } else {
        Rank::Same
    }
}

/// No byte string precedes itself.
pub proof fn lemma_precedes_irreflexive(a: Seq<u8>)
    ensures
        !precedes(a, a),
    decreases a.len(),
{
    if a.len() > 0 {
        lemma_precedes_irreflexive(a.drop_first());
    }
}

/// Of two byte strings at most one precedes the other.
pub proof fn lemma_precedes_asymmetric(a: Seq<u8>, b: Seq<u8>)
    requires
        precedes(a, b),
    ensures
        !precedes(b, a),
    decreases a.len(),
{
    if a.len() > 0 && b.len() > 0 && a[0] == b[0] {
        lemma_precedes_asymmetric(a.drop_first(), b.drop_first());
    }
}

/// What precedes a byte string precedes all that the string precedes.
pub proof fn lemma_precedes_transitive(a: Seq<u8>, b: Seq<u8>, c: Seq<u8>)
    requires
        precedes(a, b),
        precedes(b, c),
    ensures
        precedes(a, c),
    decreases a.len(),
{
    if a.len() > 0 && b.len() > 0 && c.len() > 0 && a[0] == b[0] && b[0] == c[0] {
        lemma_precedes_transitive(a.drop_first(), b.drop_first(), c.drop_first());
    }
}

/// Two byte strings of which neither precedes the other are the same.
pub proof fn lemma_precedes_connected(a: Seq<u8>, b: Seq<u8>)
    requires
        !precedes(a, b),
        !precedes(b, a),
    ensures
        a == b,
    decreases a.len(),
{
    if a.len() > 0 && b.len() > 0 {
        lemma_precedes_connected(a.drop_first(), b.drop_first());
        assert(a =~= seq![a[0]] + a.drop_first());
        assert(b =~= seq![b[0]] + b.drop_first());
    } else {
        assert(a =~= b);
    }
}

/// Skipping a common prefix does not change the order of two byte strings.
pub proof fn lemma_precedes_skip(a: Seq<u8>, b: Seq<u8>, n: int)
    requires
        0 <= n <= a.len(),
        n <= b.len(),
        a.subrange(0, n) == b.subrange(0, n),
    ensures
        precedes(a, b) == precedes(a.skip(n), b.skip(n)),
    decreases n,
{
    if n == 0 {
        assert(a.skip(0) =~= a);
        assert(b.skip(0) =~= b);
    } else {
        assert(a[0] == a.subrange(0, n)[0]);
        assert(b[0] == b.subrange(0, n)[0]);
        assert(a.drop_first().subrange(0, n - 1) =~= a.subrange(0, n).drop_first());
        assert(b.drop_first().subrange(0, n - 1) =~= b.subrange(0, n).drop_first());
        lemma_precedes_skip(a.drop_first(), b.drop_first(), n - 1);
        assert(a.drop_first().skip(n - 1) =~= a.skip(n));
        assert(b.drop_first().skip(n - 1) =~= b.skip(n));
    }
}

/// Names with the same key are the same name.
pub proof fn lemma_key_injective(a: Seq<char>, b: Seq<char>)
    requires
        key(a) == key(b),
    ensures
        a == b,
{
    encode_utf8_decode_utf8(a);
    encode_utf8_decode_utf8(b);
}

/// No name is ordered before itself.
pub proof fn lemma_name_lt_irreflexive(a: Seq<char>)
    ensures
        !name_lt(a, a),
{
    lemma_precedes_irreflexive(key(a));
}

/// The order of names is asymmetric.
pub proof fn lemma_name_lt_asymmetric(a: Seq<char>, b: Seq<char>)
    requires
        name_lt(a, b),
    ensures
        !name_lt(b, a),
        a != b,
{
    lemma_precedes_asymmetric(key(a), key(b));
    lemma_precedes_irreflexive(key(a));
}

/// The order of names is transitive.
pub proof fn lemma_name_lt_transitive(a: Seq<char>, b: Seq<char>, c: Seq<char>)
    requires
        name_lt(a, b),
        name_lt(b, c),
    ensures
        name_lt(a, c),
{
    lemma_precedes_transitive(key(a), key(b), key(c));
}

/// Of two different names one is ordered before the other.
pub proof fn lemma_name_lt_connected(a: Seq<char>, b: Seq<char>)
    requires
        !name_lt(a, b),
        !name_lt(b, a),
    ensures
        a == b,
{
    lemma_precedes_connected(key(a), key(b));
    lemma_key_injective(a, b);
}

/// `a <= b < c` gives `a < c`.
pub proof fn lemma_name_le_lt(a: Seq<char>, b: Seq<char>, c: Seq<char>)
    requires
        name_le(a, b),
        name_lt(b, c),
    ensures
        name_lt(a, c),
{
    if name_lt(a, b) {
        lemma_name_lt_transitive(a, b, c);
    } else {
        lemma_name_lt_connected(a, b);
    }
}

/// `a < b <= c` gives `a < c`.
pub proof fn lemma_name_lt_le(a: Seq<char>, b: Seq<char>, c: Seq<char>)
    requires
        name_lt(a, b),
        name_le(b, c),
    ensures
        name_lt(a, c),
{
    if name_lt(b, c) {
        lemma_name_lt_transitive(a, b, c);
    } else {
        lemma_name_lt_connected(b, c);
    }
}

/// `a <= b <= c` gives `a <= c`.
pub proof fn lemma_name_le_transitive(a: Seq<char>, b: Seq<char>, c: Seq<char>)
    requires
        name_le(a, b),
        name_le(b, c),
    ensures
        name_le(a, c),
{
    if name_lt(c, a) {
        lemma_name_lt_le(c, a, b);
    }
}

/// Ranks `a` against `b` in the order of names.
pub fn compare(a: &str, b: &str) -> (rank: Rank)
    ensures
        rank == rank_of(a@, b@),
        rank == Rank::Same <==> a@ == b@,
{
    let x = a.as_bytes();
    let y = b.as_bytes();
    let mut i: usize = 0;
    while i < x.len() && i < y.len() && x[i] == y[i]
        invariant
            i <= x@.len(),
            i <= y@.len(),
            x@.subrange(0, i as int) == y@.subrange(0, i as int),
        decreases x@.len() - i,
    {
        proof {
            assert(x@.subrange(0, i + 1) =~= x@.subrange(0, i as int).push(x@[i as int]));
            assert(y@.subrange(0, i + 1) =~= y@.subrange(0, i as int).push(y@[i as int]));
        }
        i += 1;
    }
    proof {
        lemma_precedes_skip(x@, y@, i as int);
        lemma_precedes_skip(y@, x@, i as int);
        let xs = x@.skip(i as int);
        let ys = y@.skip(i as int);
        if i < x@.len() {
            assert(xs[0] == x@[i as int]);
        }
        if i < y@.len() {
            assert(ys[0] == y@[i as int]);
        }
        if !name_lt(a@, b@) && !name_lt(b@, a@) {
            lemma_name_lt_connected(a@, b@);
        }
        if a@ == b@ {
            lemma_name_lt_irreflexive(a@);
        }
    }
    if i == x.len() {
        if i == y.len() {
            Rank::Same
        } else {
            Rank::Before
        }
    } else if i == y.len() {
        Rank::After
    } else if x[i] < y[i] {
        Rank::Before
    } else {
        Rank::After
    }
}

} // verus!
