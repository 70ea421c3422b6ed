//! The part of CBOR that ladder assertions are written in: heads, strings, and maps from text
//! to strings.

use vstd::prelude::*;

use crate::bytes::be_value;

verus! {

/// A string: of bytes, or of text in UTF-8.
pub ghost enum CborString {
    Bytes(Seq<u8>),
    Text(Seq<u8>),
}

/// An entry of a map: its key, a text in UTF-8, and its value.
pub ghost struct CborEntry {
    pub key: Seq<u8>,
    pub value: CborString,
}

/// The last `width` big-endian bytes of `n`.
pub open spec fn be_bytes(n: nat, width: nat) -> Seq<u8>
    decreases width,
{
    if width == 0 {
        Seq::empty()
    } else {
        be_bytes(n / 256, (width - 1) as nat).push((n % 256) as u8)
    }
}

/// How many bytes follow the first byte of a head for `n`.
pub open spec fn argument_width(n: nat) -> nat {
    if n < 24 {
        0
    } else if n < 0x100 {
        1
    } else if n < 0x1_0000 {
        2
    } else if n < 0x1_0000_0000 {
        4
    } else {
        8
    }
}

/// The low five bits of the first byte of a head for `n`.
pub open spec fn argument_code(n: nat) -> int {
    if n < 24 {
        n as int
    } else if n < 0x100 {
        24
    } else if n < 0x1_0000 {
        25
    } else if n < 0x1_0000_0000 {
        26
    } else {
        27
    }
}

/// The head of an item of the major type `major` with the argument `n`, in its shortest form.
pub open spec fn head(major: int, n: nat) -> Seq<u8> {
    seq![(major * 32 + argument_code(n)) as u8] + be_bytes(n, argument_width(n))
}

/// The bytes that a string holds.
pub open spec fn string_bytes(s: CborString) -> Seq<u8> {
    match s {
        CborString::Bytes(b) => b,
        CborString::Text(t) => t,
    }
}

/// The major type of a string.
pub open spec fn string_major(s: CborString) -> int {
    match s {
        CborString::Bytes(_) => 2,
        CborString::Text(_) => 3,
    }
}

/// The encoding of a string.
pub open spec fn encode_string(s: CborString) -> Seq<u8> {
    head(string_major(s), string_bytes(s).len()) + string_bytes(s)
}

/// The encoding of an entry.
pub open spec fn encode_entry(e: CborEntry) -> Seq<u8> {
    encode_string(CborString::Text(e.key)) + encode_string(e.value)
}

/// The encodings of entries, one after the other.
pub open spec fn encode_entries(entries: Seq<CborEntry>) -> Seq<u8>
    decreases entries.len(),
{
    if entries.len() == 0 {
        Seq::empty()
    } else {
        encode_entry(entries[0]) + encode_entries(entries.drop_first())
    }
}

/// The encoding of a map.
pub open spec fn encode_map(entries: Seq<CborEntry>) -> Seq<u8> {
    head(5, entries.len()) + encode_entries(entries)
}

/// Whether the lengths in a map can be written in heads.
pub open spec fn is_encodable(entries: Seq<CborEntry>) -> bool {
    &&& entries.len() <= u64::MAX
    &&& forall|k: int|
        0 <= k < entries.len() ==> {
            &&& (#[trigger] entries[k]).key.len() <= u64::MAX
            &&& string_bytes(entries[k].value).len() <= u64::MAX
        }
}

proof fn lemma_be_bytes_value(n: nat, width: nat)
    requires
        n < vstd::arithmetic::power::pow(256, width),
    ensures
        be_bytes(n, width).len() == width,
        be_value(be_bytes(n, width)) == n,
    decreases width,
{
    reveal(vstd::arithmetic::power::pow);
    if width > 0 {
        let rest = (width - 1) as nat;
        let p = vstd::arithmetic::power::pow(256, rest);
        assert(n < 256 * p);
        assert(n / 256 < p) by (nonlinear_arith)
            requires
                n < 256 * p,
                n >= 0,
        ;
        lemma_be_bytes_value(n / 256, rest);
        assert(be_bytes(n, width).drop_last() =~= be_bytes(n / 256, rest));
    }
}

proof fn lemma_argument_fits(n: nat)
    requires
        n <= u64::MAX,
    ensures
        argument_width(n) > 0 ==> n < vstd::arithmetic::power::pow(256, argument_width(n)),
        be_bytes(n, argument_width(n)).len() == argument_width(n),
        argument_width(n) > 0 ==> be_value(be_bytes(n, argument_width(n))) == n,
{
    reveal_with_fuel(vstd::arithmetic::power::pow, 9);
    if argument_width(n) > 0 {
        lemma_be_bytes_value(n, argument_width(n));
    }
}

/// A head can be told from what follows it: bytes that start with two heads start with one.
proof fn lemma_head_is_prefix_free(m1: int, n1: nat, rest1: Seq<u8>, m2: int, n2: nat, rest2: Seq<u8>)
    requires
        0 <= m1 < 8,
        0 <= m2 < 8,
        n1 <= u64::MAX,
        n2 <= u64::MAX,
        head(m1, n1) + rest1 == head(m2, n2) + rest2,
    ensures
        m1 == m2,
        n1 == n2,
        rest1 == rest2,
{
    let whole1 = head(m1, n1) + rest1;
    let whole2 = head(m2, n2) + rest2;
    assert(whole1[0] == (m1 * 32 + argument_code(n1)) as u8);
    assert(whole2[0] == (m2 * 32 + argument_code(n2)) as u8);
    assert(m1 == m2 && argument_code(n1) == argument_code(n2));
    assert(argument_width(n1) == argument_width(n2));
    lemma_argument_fits(n1);
    lemma_argument_fits(n2);
    let w = argument_width(n1) as int;
    assert(whole1.subrange(1, 1 + w) =~= be_bytes(n1, argument_width(n1)));
    assert(whole2.subrange(1, 1 + w) =~= be_bytes(n2, argument_width(n2)));
    assert(n1 == n2);
    assert(whole1.skip(1 + w) =~= rest1);
    assert(whole2.skip(1 + w) =~= rest2);
}

proof fn lemma_string_is_prefix_free(s1: CborString, rest1: Seq<u8>, s2: CborString, rest2: Seq<u8>)
    requires
        string_bytes(s1).len() <= u64::MAX,
        string_bytes(s2).len() <= u64::MAX,
        encode_string(s1) + rest1 == encode_string(s2) + rest2,
    ensures
        s1 == s2,
        rest1 == rest2,
{
    let b1 = string_bytes(s1);
    let b2 = string_bytes(s2);
    let h1 = head(string_major(s1), b1.len());
    let h2 = head(string_major(s2), b2.len());
    assert(encode_string(s1) + rest1 =~= h1 + (b1 + rest1));
    assert(encode_string(s2) + rest2 =~= h2 + (b2 + rest2));
    lemma_head_is_prefix_free(
        string_major(s1),
        b1.len(),
        b1 + rest1,
        string_major(s2),
        b2.len(),
        b2 + rest2,
    );
    let n = b1.len() as int;
    assert((b1 + rest1).take(n) =~= b1);
    assert((b2 + rest2).take(n) =~= b2);
    assert((b1 + rest1).skip(n) =~= rest1);
    assert((b2 + rest2).skip(n) =~= rest2);
}

proof fn lemma_entries_are_unique(e1: Seq<CborEntry>, e2: Seq<CborEntry>)
    requires
        e1.len() == e2.len(),
        is_encodable(e1),
        is_encodable(e2),
        encode_entries(e1) == encode_entries(e2),
    ensures
        e1 == e2,
    decreases e1.len(),
{
    if e1.len() == 0 {
        assert(e1 =~= e2);
    } else {
        let k1 = encode_string(CborString::Text(e1[0].key));
        let k2 = encode_string(CborString::Text(e2[0].key));
        let v1 = encode_string(e1[0].value);
        let v2 = encode_string(e2[0].value);
        let r1 = encode_entries(e1.drop_first());
        let r2 = encode_entries(e2.drop_first());
        assert(encode_entries(e1) =~= k1 + (v1 + r1));
        assert(encode_entries(e2) =~= k2 + (v2 + r2));
        lemma_string_is_prefix_free(
            CborString::Text(e1[0].key),
            v1 + r1,
            CborString::Text(e2[0].key),
            v2 + r2,
        );
        lemma_string_is_prefix_free(e1[0].value, r1, e2[0].value, r2);
        assert forall|k: int| 0 <= k < e1.drop_first().len() implies {
            &&& (#[trigger] e1.drop_first()[k]).key.len() <= u64::MAX
            &&& string_bytes(e1.drop_first()[k].value).len() <= u64::MAX
        } by {
            assert(e1.drop_first()[k] == e1[k + 1]);
        }
        assert forall|k: int| 0 <= k < e2.drop_first().len() implies {
            &&& (#[trigger] e2.drop_first()[k]).key.len() <= u64::MAX
            &&& string_bytes(e2.drop_first()[k].value).len() <= u64::MAX
        } by {
            assert(e2.drop_first()[k] == e2[k + 1]);
        }
        lemma_entries_are_unique(e1.drop_first(), e2.drop_first());
        assert(e1 =~= seq![e1[0]] + e1.drop_first());
        assert(e2 =~= seq![e2[0]] + e2.drop_first());
    }
}

/// An encoding is that of one map only, so whoever reads it back finds that map.
pub proof fn law_encoded_map_reads_back(e1: Seq<CborEntry>, e2: Seq<CborEntry>)
    requires
        is_encodable(e1),
        is_encodable(e2),
        encode_map(e1) == encode_map(e2),
    ensures
        e1 == e2,
{
    lemma_head_is_prefix_free(5, e1.len(), encode_entries(e1), 5, e2.len(), encode_entries(e2));
    lemma_entries_are_unique(e1, e2);
}

/// A rendition number takes one byte below twenty-four, and two from there up to 255; and no two
/// numbers are written alike on either side of that boundary.
pub proof fn law_number_width_steps(n: nat, other: nat)
    requires
        n <= u64::MAX,
        other <= u64::MAX,
    ensures
        head(0, n).len() == 1 <==> n < 24,
        head(0, n).len() == 2 <==> 24 <= n < 0x100,
        head(0, n) == head(0, other) <==> n == other,
{
    lemma_argument_fits(n);
    if head(0, n) == head(0, other) {
        lemma_head_is_prefix_free(0, n, Seq::empty(), 0, other, Seq::empty());
    }
}

/// A rendition number is written as itself below twenty-four, and from there up to 255 as itself
/// behind a byte that says so.
pub proof fn law_small_numbers_are_written_as_themselves(n: nat)
    ensures
        n < 24 ==> head(0, n) == seq![n as u8],
        24 <= n < 0x100 ==> head(0, n) == seq![0x18u8, n as u8],
{
    reveal_with_fuel(be_bytes, 2);
    if n < 24 {
        assert(head(0, n) =~= seq![n as u8]);
    } else if n < 0x100 {
        assert(head(0, n) =~= seq![0x18u8, n as u8]);
    }
}

/// A map is written as a head that counts its entries, and then each entry in turn: a text head
/// with the key's length, the key, a head with the kind and length of the value, the value.
pub proof fn law_maps_are_written_entry_by_entry(entries: Seq<CborEntry>, key: Seq<u8>, s: Seq<u8>)
    ensures
        encode_map(entries) == head(5, entries.len()) + encode_entries(entries),
        encode_entries(Seq::empty()) == Seq::<u8>::empty(),
        encode_entries(seq![CborEntry { key, value: CborString::Bytes(s) }] + entries) == head(
            3,
            key.len(),
        ) + key + head(2, s.len()) + s + encode_entries(entries),
        encode_entries(seq![CborEntry { key, value: CborString::Text(s) }] + entries) == head(
            3,
            key.len(),
        ) + key + head(3, s.len()) + s + encode_entries(entries),
{
    let bytes = seq![CborEntry { key, value: CborString::Bytes(s) }] + entries;
    let text = seq![CborEntry { key, value: CborString::Text(s) }] + entries;
    assert(bytes.drop_first() =~= entries);
    assert(text.drop_first() =~= entries);
    assert(encode_entries(bytes) =~= head(3, key.len()) + key + head(2, s.len()) + s
        + encode_entries(entries));
    assert(encode_entries(text) =~= head(3, key.len()) + key + head(3, s.len()) + s
        + encode_entries(entries));
}

} // verus!
