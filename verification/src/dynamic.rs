//! A dynamic assertion that endorses the final hash binding of a ladder, and a signer that adds
//! it to what another signer does.

use vstd::prelude::*;

use crate::bytes::{append_bytes, same_bytes};
use crate::cbor::{
    be_bytes, CborEntry, CborString, encode_entries, encode_map, head, is_encodable,
    law_encoded_map_reads_back,
};
use crate::merkle::BINDING_LABEL;
use crate::outcome::SignError;
use crate::outside::{buffer_bytes, buffered};
use crate::text::{contains_text, holds_text};

verus! {

/// An assertion as a claim refers to it: by the URL of its box and the hash of its contents.
#[derive(Clone, Debug)]
pub struct AssertionRef {
    pub url: String,
    pub hash: Vec<u8>,
}

/// The model of a reference to an assertion.
pub ghost struct RefModel {
    pub url: Seq<char>,
    pub hash: Seq<u8>,
}

impl View for AssertionRef {
    type V = RefModel;

    open spec fn view(&self) -> RefModel {
        RefModel { url: self.url@, hash: self.hash@ }
    }
}

/// A claim before its dynamic assertions are written.
#[derive(Clone, Debug)]
pub struct PartialClaim {
    pub assertions: Vec<AssertionRef>,
}

/// What a dynamic assertion contributes.
#[derive(Clone, Debug)]
pub enum DynamicAssertionContent {
    Cbor(Vec<u8>),
}

/// What the endorsement says: the hash of the hash binding.
#[derive(Debug)]
pub struct Endorsement {
    pub hash: serde_bytes::ByteBuf,
}

/// The models of a list of references.
pub open spec fn refs(assertions: Seq<AssertionRef>) -> Seq<RefModel> {
    assertions.map_values(|a: AssertionRef| a@)
}

/// The predicate "refers to a hash binding".
pub open spec fn refers_to_binding() -> spec_fn(RefModel) -> bool {
    |a: RefModel| holds_text(a.url, BINDING_LABEL@)
}

/// The references to hash bindings, in order.
pub open spec fn binding_refs(assertions: Seq<RefModel>) -> Seq<RefModel> {
    assertions.filter(refers_to_binding())
}

/// The position of the first reference to a hash binding.
pub fn find_binding(assertions: &Vec<AssertionRef>) -> (found: Option<usize>)
    ensures
        match found {
            Some(i) => i < assertions@.len() && binding_refs(refs(assertions@)).len() > 0
                && assertions@[i as int]@ == binding_refs(refs(assertions@))[0],
            None => binding_refs(refs(assertions@)).len() == 0,
        },
        match found {
            Some(i) => holds_text(assertions@[i as int].url@, "c2pa.hash.bmff.v3"@) && forall|k: int|
                0 <= k < i ==> !holds_text((#[trigger] assertions@[k]).url@, "c2pa.hash.bmff.v3"@),
            None => forall|k: int|
                0 <= k < assertions@.len() ==> !holds_text(
                    (#[trigger] assertions@[k]).url@,
                    "c2pa.hash.bmff.v3"@,
                ),
        },
{
    let ghost all = refs(assertions@);
    let mut i: usize = 0;
    proof {
        reveal(Seq::filter);
        assert(all.take(0) =~= Seq::<RefModel>::empty());
    }
    while i < assertions.len()
        invariant
            all == refs(assertions@),
            i <= assertions@.len(),
            binding_refs(all.take(i as int)).len() == 0,
            forall|k: int|
                0 <= k < i ==> !holds_text((#[trigger] assertions@[k]).url@, "c2pa.hash.bmff.v3"@),
        decreases assertions@.len() - i,
    {
        proof {
            reveal(Seq::filter);
            assert(all.take(i + 1).drop_last() =~= all.take(i as int));
            assert(all.take(i + 1).last() == assertions@[i as int]@);
        }
        if contains_text(assertions[i].url.as_str(), BINDING_LABEL) {
            proof {
                lemma_first_stays_first(all, i + 1);
            }
            return Some(i);
        }
        i += 1;
    }
    assert(all.take(i as int) =~= all);
    None
}

proof fn lemma_first_stays_first(all: Seq<RefModel>, n: int)
    requires
        0 <= n <= all.len(),
        binding_refs(all.take(n)).len() > 0,
    ensures
        binding_refs(all).len() > 0,
        binding_refs(all)[0] == binding_refs(all.take(n))[0],
    decreases all.len(),
{
    reveal(Seq::filter);
    if n == all.len() {
        assert(all.take(n) =~= all);
    } else {
        assert(all.drop_last().take(n) =~= all.take(n));
        lemma_first_stays_first(all.drop_last(), n);
    }
}

/// How many bytes an endorsement takes.
pub const ENDORSEMENT_SIZE: usize = 64;

/// What stands before the hash in an endorsement: a map of two entries, the key `hash`, and a
/// byte string of thirty-two bytes.
pub open spec fn endorsement_front() -> Seq<u8> {
    seq![0xa2u8, 0x64, 0x68, 0x61, 0x73, 0x68, 0x58, 0x20]
}

/// What stands behind the hash in an endorsement: the key `pad` and nineteen letters.
pub open spec fn endorsement_back() -> Seq<u8> {
    seq![0x63u8, 0x70, 0x61, 0x64, 0x73] + Seq::new(19, |i: int| 0x78u8)
}

/// The endorsement of a hash.
pub open spec fn endorsement_of(hash: Seq<u8>) -> Seq<u8> {
    endorsement_front() + hash + endorsement_back()
}

/// The map that an endorsement is: the hash, and padding.
pub open spec fn endorsement_map(hash: Seq<u8>) -> Seq<CborEntry> {
    seq![
        CborEntry { key: seq![0x68u8, 0x61, 0x73, 0x68], value: CborString::Bytes(hash) },
        CborEntry {
            key: seq![0x70u8, 0x61, 0x64],
            value: CborString::Text(Seq::new(19, |i: int| 0x78u8)),
        },
    ]
}

/// The assertion that endorses the hash binding of the claim that it is part of.
#[derive(Clone, Copy, Debug, PartialEq, Eq, Structural)]
pub struct Dynamic;

impl Dynamic {
    /// The label of the assertion.
    pub fn label(&self) -> (label: String)
        ensures
            label@ == "org.example.ladder-test"@,
    {
        String::from_str("org.example.ladder-test")
    }

    /// How many bytes are kept free for the assertion.
    pub fn reserve_size(&self) -> (size: Result<usize, SignError>)
        ensures
            size == Ok::<usize, SignError>(ENDORSEMENT_SIZE),
    {
        Ok(ENDORSEMENT_SIZE)
    }

    /// The endorsement of the first hash binding that the claim refers to.
    pub fn content(&self, _label: &str, size: Option<usize>, claim: &PartialClaim) -> (content:
        Result<DynamicAssertionContent, SignError>)
        requires
            size == Some(ENDORSEMENT_SIZE),
            binding_refs(refs(claim.assertions@)).len() > 0,
        ensures
            content matches Ok(DynamicAssertionContent::Cbor(bytes)) && bytes@ == endorsement_of(
                binding_refs(refs(claim.assertions@))[0].hash,
            ),
    {
        let mut content: Vec<u8> = vec![0xa2, 0x64, 0x68, 0x61, 0x73, 0x68, 0x58, 0x20];
        assert(content@ =~= endorsement_front());
        if let Some(i) = find_binding(&claim.assertions) {
            append_bytes(&mut content, claim.assertions[i].hash.as_slice());
        }
        let mut back: Vec<u8> = vec![0x63, 0x70, 0x61, 0x64, 0x73];
        let mut letters: Vec<u8> = vec![0x78; 19];
        assert(letters@ =~= Seq::new(19, |i: int| 0x78u8));
        back.append(&mut letters);
        assert(back@ =~= endorsement_back());
        content.append(&mut back);
        Ok(DynamicAssertionContent::Cbor(content))
    }
}

/// Whether an endorsement endorses the first hash binding among a claim's assertions.
pub fn check_endorsement(endorsement: &Endorsement, assertions: &Vec<AssertionRef>) -> (endorses:
    bool)
    ensures
        endorses == (binding_refs(refs(assertions@)).len() > 0 && buffered(endorsement.hash)
            == binding_refs(refs(assertions@))[0].hash),
{
    match find_binding(assertions) {
        Some(i) => same_bytes(buffer_bytes(&endorsement.hash), assertions[i].hash.as_slice()),
        None => false,
    }
}

/// What signs a claim.
pub trait Signer {
    /// Names the algorithm of a signature.
    type Alg;

    /// An assertion that the signer adds to the claim.
    type Assertion;

    /// Signs `data`.
    fn sign(&self, data: &[u8]) -> Result<Vec<u8>, SignError>;

    /// The algorithm of the signature.
    fn alg(&self) -> Self::Alg;

    /// The certificates that go with the signature.
    fn certs(&self) -> Result<Vec<Vec<u8>>, SignError>;

    /// How many bytes are kept free for the signature.
    fn reserve_size(&self) -> usize;

    /// The dynamic assertions that go into the claim.
    fn dynamic_assertions(&self) -> Vec<Self::Assertion>;
}

/// A signer that signs as another does and adds the endorsement.
pub struct DynamicSigner<S>(pub S);

impl<S: Signer> Signer for DynamicSigner<S> {
    type Alg = S::Alg;

    type Assertion = Dynamic;

    fn sign(&self, data: &[u8]) -> (signature: Result<Vec<u8>, SignError>)
        ensures
            call_ensures(S::sign, (&self.0, data), signature),
    {
        self.0.sign(data)
    }

    fn alg(&self) -> (alg: S::Alg)
        ensures
            call_ensures(S::alg, (&self.0,), alg),
    {
        self.0.alg()
    }

    fn certs(&self) -> (certs: Result<Vec<Vec<u8>>, SignError>)
        ensures
            call_ensures(S::certs, (&self.0,), certs),
    {
        self.0.certs()
    }

    fn reserve_size(&self) -> (size: usize)
        ensures
            call_ensures(S::reserve_size, (&self.0,), size),
    {
        self.0.reserve_size()
    }

    fn dynamic_assertions(&self) -> (assertions: Vec<Dynamic>)
        ensures
            assertions@ == seq![Dynamic],
    {
        let assertions: Vec<Dynamic> = vec![Dynamic];
        assert(assertions@ =~= seq![Dynamic]);
        assertions
    }
}

/// The endorsement of a hash of thirty-two bytes takes exactly the bytes that are kept free for
/// it, and is the CBOR encoding of a map that holds the hash.
pub proof fn law_endorsement_fills_its_reserve(hash: Seq<u8>)
    requires
        hash.len() == 32,
    ensures
        endorsement_of(hash).len() == ENDORSEMENT_SIZE,
        endorsement_of(hash) == encode_map(endorsement_map(hash)),
{
    let map = endorsement_map(hash);
    let x = Seq::new(19, |i: int| 0x78u8);
    reveal_with_fuel(encode_entries, 3);
    reveal_with_fuel(be_bytes, 2);
    assert(map.drop_first().drop_first() =~= Seq::<CborEntry>::empty());
    assert(map.drop_first()[0] == map[1]);
    assert(head(5, 2) =~= seq![0xa2u8]);
    assert(head(3, 4) =~= seq![0x64u8]);
    assert(head(2, 32) =~= seq![0x58u8, 0x20u8]);
    assert(head(3, 3) =~= seq![0x63u8]);
    assert(head(3, 19) =~= seq![0x73u8]);
    assert(endorsement_of(hash) =~= encode_map(map));
}

/// Whoever reads an endorsement back, finds in it the hash of the hash binding: it is the
/// encoding of no other map, and so the endorsement of no other hash.
pub proof fn law_endorsement_reads_back(hash: Seq<u8>, entries: Seq<CborEntry>)
    requires
        hash.len() == 32,
        is_encodable(entries),
        encode_map(entries) == endorsement_of(hash),
    ensures
        entries == endorsement_map(hash),
        entries[0].value == CborString::Bytes(hash),
{
    law_endorsement_fills_its_reserve(hash);
    law_encoded_map_reads_back(entries, endorsement_map(hash));
}

/// The references to hash bindings are those whose URL holds `c2pa.hash.bmff.v3`, anywhere in it,
/// every one of them, in their order, with their hashes.
pub proof fn law_bindings_are_found_by_their_label(
    assertions: Seq<AssertionRef>,
    next: AssertionRef,
)
    ensures
        binding_refs(refs(Seq::empty())) == Seq::<RefModel>::empty(),
        holds_text(next.url@, "c2pa.hash.bmff.v3"@) ==> binding_refs(refs(assertions.push(next)))
            == binding_refs(refs(assertions)).push(
            (RefModel { url: next.url@, hash: next.hash@ }),
        ),
        !holds_text(next.url@, "c2pa.hash.bmff.v3"@) ==> binding_refs(refs(assertions.push(next)))
            == binding_refs(refs(assertions)),
{
    reveal(Seq::filter);
    assert(refs(Seq::<AssertionRef>::empty()) =~= Seq::<RefModel>::empty());
    let all = refs(assertions.push(next));
    assert(all.drop_last() =~= refs(assertions));
    assert(all.last() == next@);
}

/// The first hash binding is that of the first reference whose URL holds the label; references
/// behind it count for nothing.
pub proof fn law_first_binding_is_endorsed(assertions: Seq<AssertionRef>, first: int)
    requires
        0 <= first < assertions.len(),
        holds_text(assertions[first].url@, "c2pa.hash.bmff.v3"@),
        forall|k: int|
            0 <= k < first ==> !holds_text(
                (#[trigger] assertions[k]).url@,
                "c2pa.hash.bmff.v3"@,
            ),
    ensures
        binding_refs(refs(assertions)).len() > 0,
        binding_refs(refs(assertions))[0].hash == assertions[first].hash@,
{
    let front = assertions.take(first);
    lemma_no_binding(front);
    law_bindings_are_found_by_their_label(front, assertions[first]);
    assert(assertions.take(first + 1) =~= front.push(assertions[first]));
    assert(refs(assertions).take(first + 1) =~= refs(assertions.take(first + 1)));
    lemma_first_stays_first(refs(assertions), first + 1);
}

proof fn lemma_no_binding(assertions: Seq<AssertionRef>)
    requires
        forall|k: int|
            0 <= k < assertions.len() ==> !holds_text(
                (#[trigger] assertions[k]).url@,
                "c2pa.hash.bmff.v3"@,
            ),
    ensures
        binding_refs(refs(assertions)).len() == 0,
    decreases assertions.len(),
{
    if assertions.len() > 0 {
        let rest = assertions.drop_last();
        assert forall|k: int| 0 <= k < rest.len() implies !holds_text(
            (#[trigger] rest[k]).url@,
            "c2pa.hash.bmff.v3"@,
        ) by {
            assert(rest[k] == assertions[k]);
        }
        lemma_no_binding(rest);
        assert(assertions =~= rest.push(assertions.last()));
        assert(assertions.last() == assertions[assertions.len() - 1]);
        law_bindings_are_found_by_their_label(rest, assertions.last());
    } else {
        law_bindings_are_found_by_their_label(assertions, arbitrary());
        assert(assertions =~= Seq::<AssertionRef>::empty());
    }
}

/// An endorsement holds the hash that it endorses, of whatever length, whole and unchanged, between
/// eight bytes that open a map with the key `hash` and twenty-four that pad it out with nineteen
/// letters `x`.
pub proof fn law_endorsement_holds_the_hash(hash: Seq<u8>)
    ensures
        endorsement_of(hash).len() == 8 + hash.len() + 24,
        endorsement_of(hash).take(8) == seq![0xa2u8, 0x64, 0x68, 0x61, 0x73, 0x68, 0x58, 0x20],
        endorsement_of(hash).subrange(8, 8 + hash.len() as int) == hash,
        endorsement_of(hash).skip(8 + hash.len() as int).take(5) == seq![0x63u8, 0x70, 0x61, 0x64, 0x73],
        forall|k: int|
            13 + hash.len() <= k < endorsement_of(hash).len() ==> #[trigger] endorsement_of(hash)[k]
                == 0x78,
{
    let all = endorsement_of(hash);
    assert(all.take(8) =~= seq![0xa2u8, 0x64, 0x68, 0x61, 0x73, 0x68, 0x58, 0x20]);
    assert(all.subrange(8, 8 + hash.len() as int) =~= hash);
    assert(all.skip(8 + hash.len() as int).take(5) =~= seq![0x63u8, 0x70, 0x61, 0x64, 0x73]);
}

} // verus!
