//! Byte strings: comparison, big-endian numbers and single-bit damage.

use vstd::prelude::*;

verus! {

/// The bytes that an owned, possibly absent byte string holds.
pub open spec fn bytes_of(bytes: Option<Vec<u8>>) -> Option<Seq<u8>> {
    match bytes {
        Some(b) => Some(b@),
        None => None,
    }
}

/// The contents of a list of files.
pub open spec fn contents(files: Seq<Vec<u8>>) -> Seq<Seq<u8>> {
    files.map_values(|f: Vec<u8>| f@)
}

/// The value of a big-endian number.
pub open spec fn be_value(bytes: Seq<u8>) -> nat
    decreases bytes.len(),
{
    if bytes.len() == 0 {
        0
    } else {
        be_value(bytes.drop_last()) * 256 + bytes.last() as nat
    }
}

/// `bytes` with the lowest bit of the byte at `at` inverted.
pub open spec fn flipped(bytes: Seq<u8>, at: int) -> Seq<u8> {
    bytes.update(at, bytes[at] ^ 1u8)
}

/// Whether two byte strings are equal.
pub fn same_bytes(a: &[u8], b: &[u8]) -> (same: bool)
    ensures
        same == (a@ == b@),
{
    if a.len() != b.len() {
        return false;
    }
    let mut i: usize = 0;
    while i < a.len()
        invariant
            a@.len() == b@.len(),
            i <= a@.len(),
            forall|k: int| 0 <= k < i ==> a@[k] == b@[k],
        decreases a@.len() - i,
    {
        if a[i] != b[i] {
            return false;
        }
        i += 1;
    }
    assert(a@ =~= b@);
    true
}

/// Whether an optional byte string is present and equal to `expected`.
pub fn holds_bytes(bytes: &Option<Vec<u8>>, expected: &[u8]) -> (holds: bool)
    ensures
        holds == (bytes_of(*bytes) == Some(expected@)),
{
    match bytes {
        Some(b) => same_bytes(b.as_slice(), expected),
        None => false,
    }
}

/// Whether two lists of files hold the same contents in the same order.
pub fn same_files(a: &Vec<Vec<u8>>, b: &Vec<Vec<u8>>) -> (same: bool)
    ensures
        same == (contents(a@) == contents(b@)),
{
    if a.len() != b.len() {
        assert(contents(a@).len() != contents(b@).len());
        return false;
    }
    let mut i: usize = 0;
    while i < a.len()
        invariant
            a@.len() == b@.len(),
            i <= a@.len(),
            forall|k: int| 0 <= k < i ==> a@[k]@ == b@[k]@,
        decreases a@.len() - i,
    {
        if !same_bytes(a[i].as_slice(), b[i].as_slice()) {
            assert(contents(a@)[i as int] != contents(b@)[i as int]);
            return false;
        }
        i += 1;
    }
    assert(contents(a@) =~= contents(b@));
    true
}

/// Appends a byte string to a vector.
pub(crate) fn append_bytes(out: &mut Vec<u8>, bytes: &[u8])
    ensures
        final(out)@ == old(out)@ + bytes@,
{
    out.extend_from_slice(bytes);
    assert(out@ =~= old(out)@ + bytes@);
}

/// Reads the big-endian number in `bytes`.
pub fn read_be(bytes: &[u8]) -> (value: u64)
    requires
        bytes@.len() <= 8,
    ensures
        value == be_value(bytes@),
{
    let mut value: u64 = 0;
    let mut i: usize = 0;
    assert(bytes@.take(0) =~= Seq::<u8>::empty());
    while i < bytes.len()
        invariant
            bytes@.len() <= 8,
            i <= bytes@.len(),
            value == be_value(bytes@.take(i as int)),
        decreases bytes@.len() - i,
    {
        let ghost next = bytes@.take(i + 1);
        proof {
            assert(next.drop_last() =~= bytes@.take(i as int));
            lemma_be_value_bound(next);
        }
        value = value * 256 + bytes[i] as u64;
        i += 1;
    }
    assert(bytes@.take(i as int) =~= bytes@);
    value
}

/// A big-endian number of at most eight bytes fits in 64 bits.
proof fn lemma_be_value_bound(bytes: Seq<u8>)
    requires
        bytes.len() <= 8,
    ensures
        be_value(bytes) <= u64::MAX,
{
    lemma_be_value_below_power(bytes);
    vstd::arithmetic::power::lemma_pow_increases(256, bytes.len(), 8);
    assert(vstd::arithmetic::power::pow(256, 8) == 0x1_0000_0000_0000_0000) by {
        reveal_with_fuel(vstd::arithmetic::power::pow, 9);
    }
}

proof fn lemma_be_value_below_power(bytes: Seq<u8>)
    ensures
        be_value(bytes) < vstd::arithmetic::power::pow(256, bytes.len()),
    decreases bytes.len(),
{
    reveal(vstd::arithmetic::power::pow);
    if bytes.len() > 0 {
        lemma_be_value_below_power(bytes.drop_last());
        assert(be_value(bytes) < 256 * vstd::arithmetic::power::pow(256, (bytes.len() - 1) as nat));
    }
}

/// Inverts the lowest bit of the byte at `at`.
pub fn flip_byte(bytes: &mut Vec<u8>, at: usize)
    requires
        at < old(bytes)@.len(),
    ensures
        final(bytes)@ == flipped(old(bytes)@, at as int),
{
    let byte: u8 = bytes[at];
    bytes.set(at, byte ^ 1);
}

/// Flipping changes the byte at `at` and no other, and flipping it again restores the bytes.
pub proof fn law_flip_is_visible_and_undone(bytes: Seq<u8>, at: int)
    requires
        0 <= at < bytes.len(),
    ensures
        flipped(bytes, at) != bytes,
        flipped(bytes, at).len() == bytes.len(),
        forall|k: int| 0 <= k < bytes.len() && k != at ==> flipped(bytes, at)[k] == bytes[k],
        flipped(flipped(bytes, at), at) == bytes,
{
    let byte = bytes[at];
    assert((byte ^ 1u8) != byte) by (bit_vector);
    assert(((byte ^ 1u8) ^ 1u8) == byte) by (bit_vector);
    assert(flipped(bytes, at)[at] != bytes[at]);
    assert(flipped(flipped(bytes, at), at) =~= bytes);
}

/// The four bytes from `at` on, as the number that they write with the highest byte first.
pub open spec fn word_at(bytes: Seq<u8>, at: int) -> int {
    bytes[at] * 0x100_0000 + bytes[at + 1] * 0x1_0000 + bytes[at + 2] * 0x100 + bytes[at + 3]
}

/// A number counts its bytes by their places: one byte stands for itself, and what stands before
/// others counts 256 times as much for each of them.
pub proof fn law_numbers_count_their_bytes_by_place(byte: u8, front: Seq<u8>, back: Seq<u8>)
    ensures
        be_value(seq![byte]) == byte,
        be_value(front + back) == be_value(front) * vstd::arithmetic::power::pow(256, back.len())
            + be_value(back),
    decreases back.len(),
{
    reveal(vstd::arithmetic::power::pow);
    reveal_with_fuel(be_value, 2);
    assert(seq![byte].drop_last() =~= Seq::<u8>::empty());
    if back.len() == 0 {
        assert(front + back =~= front);
    } else {
        let rest = back.drop_last();
        law_numbers_count_their_bytes_by_place(byte, front, rest);
        assert((front + back).drop_last() =~= front + rest);
        let p = vstd::arithmetic::power::pow(256, rest.len());
        let v = be_value(front) as int;
        assert((v * p) * 256 == v * (256 * p)) by (nonlinear_arith);
    }
}

/// Every bit of every byte counts: four bytes are read as the word that they write, and eight as
/// two words, of which the first counts 2^32 times.
pub proof fn law_words_are_read_whole(bytes: Seq<u8>, at: int)
    requires
        0 <= at,
        at + 4 <= bytes.len(),
    ensures
        be_value(bytes.subrange(at, at + 4)) == word_at(bytes, at),
        at + 8 <= bytes.len() ==> be_value(bytes.subrange(at, at + 8)) == word_at(bytes, at)
            * 0x1_0000_0000 + word_at(bytes, at + 4),
{
    lemma_word(bytes, at);
    if at + 8 <= bytes.len() {
        let front = bytes.subrange(at, at + 4);
        let back = bytes.subrange(at + 4, at + 8);
        lemma_word(bytes, at + 4);
        assert(bytes.subrange(at, at + 8) =~= front + back);
        law_numbers_count_their_bytes_by_place(0, front, back);
        reveal_with_fuel(vstd::arithmetic::power::pow, 5);
        assert(vstd::arithmetic::power::pow(256, 4) == 0x1_0000_0000);
    }
}

proof fn lemma_word(bytes: Seq<u8>, at: int)
    requires
        0 <= at,
        at + 4 <= bytes.len(),
    ensures
        be_value(bytes.subrange(at, at + 4)) == word_at(bytes, at),
{
    reveal_with_fuel(be_value, 5);
    let word = bytes.subrange(at, at + 4);
    assert(word.drop_last() =~= bytes.subrange(at, at + 3));
    assert(word.drop_last().drop_last() =~= bytes.subrange(at, at + 2));
    assert(word.drop_last().drop_last().drop_last() =~= bytes.subrange(at, at + 1));
    assert(word.drop_last().drop_last().drop_last().drop_last() =~= Seq::<u8>::empty());
}

/// Flipping inverts the lowest bit: it adds one to an even byte and takes one from an odd one.
pub proof fn law_flip_inverts_the_lowest_bit(bytes: Seq<u8>, at: int)
    requires
        0 <= at < bytes.len(),
    ensures
        bytes[at] % 2 == 0 ==> flipped(bytes, at)[at] == bytes[at] + 1,
        bytes[at] % 2 == 1 ==> flipped(bytes, at)[at] == bytes[at] - 1,
{
    let byte = bytes[at];
    assert(byte % 2 == 0 ==> (byte ^ 1u8) == byte + 1) by (bit_vector);
    assert(byte % 2 == 1 ==> (byte ^ 1u8) == byte - 1) by (bit_vector);
}

/// A byte string that is there holds its own bytes, empty or not, and one that is absent none.
pub proof fn law_held_bytes_are_the_bytes(bytes: Option<Vec<u8>>, expected: Seq<u8>)
    ensures
        bytes_of(bytes) == Some(expected) <==> (bytes matches Some(b) && b@ == expected),
        bytes_of(bytes) is None <==> bytes is None,
{
}

/// Two lists of files hold the same exactly where there are as many files in each, and every one
/// has the bytes of its counterpart.
pub proof fn law_files_are_compared_one_by_one(a: Seq<Vec<u8>>, b: Seq<Vec<u8>>)
    ensures
        contents(a) == contents(b) <==> a.len() == b.len() && forall|k: int|
            0 <= k < a.len() ==> (#[trigger] a[k])@ == (#[trigger] b[k])@,
{
    if contents(a) == contents(b) {
        assert(a.len() == contents(a).len() && b.len() == contents(b).len());
        assert forall|k: int| 0 <= k < a.len() implies (#[trigger] a[k])@ == (#[trigger] b[k])@ by {
            assert(contents(a)[k] == a[k]@);
            assert(contents(b)[k] == b[k]@);
        }
    }
    if a.len() == b.len() && forall|k: int|
        0 <= k < a.len() ==> (#[trigger] a[k])@ == (#[trigger] b[k])@ {
        assert(contents(a) =~= contents(b)) by {
            assert forall|k: int| 0 <= k < a.len() implies contents(a)[k] == contents(b)[k] by {
                assert(a[k]@ == b[k]@);
            }
        }
    }
}

} // verus!
