//! The change-detection signature of a list: a 64-bit hash of what its items
//! feed to the hasher, in the order of the list.

use std::collections::hash_map::DefaultHasher;
use std::hash::Hasher;
use vstd::prelude::*;
use vstd::std_specs::hash::DefaultHasherAdditionalSpecFns;

verus! {

/// The byte that closes a string in the hasher's input, so that two strings
/// written one after the other cannot be taken for another pair.
pub const STRING_END: u8 = 0xff;

/// An item that takes part in a signature.
pub trait Digest {
    /// What the item writes to the hasher, write by write.
    spec fn digest(&self) -> Seq<Seq<u8>>;

    /// Writes the item to the hasher.
    fn feed(&self, hasher: &mut DefaultHasher)
        ensures
            final(hasher)@ == old(hasher)@ + self.digest(),
    ;
}

/// What a string writes to the hasher: its UTF-8 bytes, then the closing
/// byte.
pub open spec fn text_digest(text: Seq<char>) -> Seq<Seq<u8>> {
    seq![vstd::utf8::encode_utf8(text), seq![STRING_END]]
}

/// What a byte writes to the hasher: itself, in a write of its own.
pub open spec fn byte_digest(byte: u8) -> Seq<Seq<u8>> {
    seq![seq![byte]]
}

/// Writes a byte to the hasher.
pub fn feed_byte(byte: u8, hasher: &mut DefaultHasher)
    ensures
        final(hasher)@ == old(hasher)@ + byte_digest(byte),
{
    let bytes: [u8; 1] = [byte];
    hasher.write(bytes.as_slice());
    proof {
        assert(bytes@ =~= seq![byte]);
        assert(hasher@ =~= old(hasher)@ + byte_digest(byte));
    }
}

/// Writes a string to the hasher.
pub fn feed_text(text: &str, hasher: &mut DefaultHasher)
    ensures
        final(hasher)@ == old(hasher)@ + text_digest(text@),
{
    hasher.write(text.as_bytes());
    feed_byte(STRING_END, hasher);
    proof {
        assert(hasher@ =~= old(hasher)@ + text_digest(text@));
    }
}

/// What a number writes to the hasher: its eight bytes, lowest first.
pub open spec fn number_digest(number: u64) -> Seq<Seq<u8>> {
    seq![vstd::bytes::spec_u64_to_le_bytes(number)]
}

/// Writes a number to the hasher.
pub fn feed_number(number: u64, hasher: &mut DefaultHasher)
    ensures
        final(hasher)@ == old(hasher)@ + number_digest(number),
{
    let bytes = vstd::bytes::u64_to_le_bytes(number);
    hasher.write(bytes.as_slice());
    proof {
        assert(hasher@ =~= old(hasher)@ + number_digest(number));
    }
}

impl Digest for String {
    open spec fn digest(&self) -> Seq<Seq<u8>> {
        text_digest(self@)
    }

    fn feed(&self, hasher: &mut DefaultHasher) {
        feed_text(self.as_str(), hasher);
    }
}

/// What a list writes to the hasher: the digests of its items, one after
/// the other.
pub open spec fn stream<T: Digest>(items: Seq<T>) -> Seq<Seq<u8>>
    decreases items.len(),
{
    if items.len() == 0 {
        Seq::empty()
    } else {
        stream(items.drop_last()) + items.last().digest()
    }
}

/// The signature of a list.
pub open spec fn signature_of<T: Digest>(items: Seq<T>) -> u64 {
    DefaultHasher::spec_finish(stream(items))
}

/// Computes the signature of a list: a fresh hasher is fed every item in
/// turn and then asked for its value.
pub fn signature<T: Digest>(items: &[T]) -> (hash: u64)
    ensures
        hash == signature_of(items@),
{
    let mut hasher = DefaultHasher::new();
    let mut i: usize = 0;
    while i < items.len()
        invariant
            i <= items@.len(),
            hasher@ == stream(items@.subrange(0, i as int)),
        decreases items@.len() - i,
    {
        proof {
            assert(items@.subrange(0, i + 1).drop_last() =~= items@.subrange(0, i as int));
        }
        items[i].feed(&mut hasher);
        i += 1;
    }
    proof {
        assert(items@.subrange(0, items@.len() as int) =~= items@);
    }
    hasher.finish()
}

/// Lists whose items write the same to the hasher, place by place, have
/// the same signature.
pub proof fn lemma_signature_by_digest<T: Digest>(a: Seq<T>, b: Seq<T>)
    requires
        a.len() == b.len(),
        forall|i: int| 0 <= i < a.len() ==> (#[trigger] a[i]).digest() == b[i].digest(),
    ensures
        stream(a) == stream(b),
        signature_of(a) == signature_of(b),
    decreases a.len(),
{
    if a.len() > 0 {
        let x = a.drop_last();
        let y = b.drop_last();
        assert forall|i: int| 0 <= i < x.len() implies (#[trigger] x[i]).digest()
            == y[i].digest() by {
            assert(a[i].digest() == b[i].digest());
        }
        lemma_signature_by_digest(x, y);
        assert(a[a.len() - 1].digest() == b[a.len() - 1].digest());
    }
}

} // verus!
