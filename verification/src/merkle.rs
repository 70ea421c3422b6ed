//! The hash binding of a ladder: one Merkle map for each rendition.

use vstd::prelude::*;

use crate::bytes::same_bytes;
use crate::outside::{buffer_bytes, buffer_from, buffered};

verus! {

/// The hashes of one rendition.
#[derive(Clone, Debug)]
pub struct MerkleMap {
    pub unique_id: usize,
    pub local_id: usize,
    pub count: usize,
    pub hashes: Vec<serde_bytes::ByteBuf>,
    pub init_hash: Option<serde_bytes::ByteBuf>,
}

/// The hash binding of a manifest: a hash of the whole file, or Merkle maps of its fragments.
#[derive(Clone, Debug)]
pub struct BmffHash {
    pub hash: Option<serde_bytes::ByteBuf>,
    pub merkle: Option<Vec<MerkleMap>>,
    pub bmff_version: usize,
}

/// The model of a Merkle map.
pub ghost struct MapModel {
    pub unique_id: nat,
    pub local_id: nat,
    pub count: nat,
    pub hashes: Seq<Seq<u8>>,
    pub init_hash: Option<Seq<u8>>,
}

/// The model of a hash binding.
pub ghost struct HashModel {
    pub hash: Option<Seq<u8>>,
    pub merkle: Option<Seq<MapModel>>,
    pub bmff_version: nat,
}

/// What an optional buffer holds.
pub open spec fn opt_buffered(buffer: Option<serde_bytes::ByteBuf>) -> Option<Seq<u8>> {
    match buffer {
        Some(b) => Some(buffered(b)),
        None => None,
    }
}

impl View for MerkleMap {
    type V = MapModel;

    open spec fn view(&self) -> MapModel {
        MapModel {
            unique_id: self.unique_id as nat,
            local_id: self.local_id as nat,
            count: self.count as nat,
            hashes: self.hashes@.map_values(|h: serde_bytes::ByteBuf| buffered(h)),
            init_hash: opt_buffered(self.init_hash),
        }
    }
}

/// The models of a list of Merkle maps.
pub open spec fn map_models(maps: Seq<MerkleMap>) -> Seq<MapModel> {
    maps.map_values(|m: MerkleMap| m@)
}

impl View for BmffHash {
    type V = HashModel;

    open spec fn view(&self) -> HashModel {
        HashModel {
            hash: opt_buffered(self.hash),
            merkle: match self.merkle {
                Some(maps) => Some(map_models(maps@)),
                None => None,
            },
            bmff_version: self.bmff_version as nat,
        }
    }
}

/// A hash of thirty-two zero bytes.
pub open spec fn zero_hash() -> Seq<u8> {
    Seq::new(32, |i: int| 0u8)
}

fn zero_buffer() -> (buffer: serde_bytes::ByteBuf)
    ensures
        buffered(buffer) == zero_hash(),
{
    let zeros: Vec<u8> = vec![0; 32];
    assert(zeros@ =~= zero_hash());
    buffer_from(zeros)
}

/// A map whose first hash is overwritten with zeros.
pub open spec fn with_zeroed_leaf(map: MapModel) -> MapModel {
    MapModel { hashes: map.hashes.update(0, zero_hash()), ..map }
}

/// A binding with another map at `rung`.
pub open spec fn with_map(hash: HashModel, rung: int, map: MapModel) -> HashModel {
    HashModel { merkle: Some(hash.merkle.unwrap().update(rung, map)), ..hash }
}

/// Whether the binding has a map at `rung`, with a hash in it.
pub open spec fn has_leaf(hash: HashModel, rung: int) -> bool {
    hash.merkle matches Some(maps) && 0 <= rung < maps.len() && maps[rung].hashes.len() > 0
}

/// The rung that follows `rung` in a ladder of `rungs`, where the last is followed by the first.
pub open spec fn sibling_of(rung: int, rungs: nat) -> int {
    (rung + 1) % rungs as int
}

/// The binding with the first hash of the map at `rung` overwritten.
pub open spec fn own_forged(hash: HashModel, rung: int) -> HashModel {
    with_map(hash, rung, with_zeroed_leaf(hash.merkle.unwrap()[rung]))
}

/// The binding with the first hash and the initialisation hash of the map of the rung that
/// follows `rung` overwritten.
pub open spec fn sibling_forged(hash: HashModel, rung: int) -> HashModel {
    let sibling = sibling_of(rung, hash.merkle.unwrap().len());
    let map = hash.merkle.unwrap()[sibling];
    with_map(hash, sibling, (MapModel { init_hash: Some(zero_hash()), ..with_zeroed_leaf(map) }))
}

/// Overwrites the first hash of a map with zeros.
fn zero_leaf(map: &mut MerkleMap)
    requires
        old(map)@.hashes.len() > 0,
    ensures
        final(map)@ == with_zeroed_leaf(old(map)@),
{
    map.hashes.set(0, zero_buffer());
    assert(map@.hashes =~= with_zeroed_leaf(old(map)@).hashes);
}

/// Overwrites the first hash of a map, and its initialisation hash, with zeros.
fn zero_leaf_and_init(map: &mut MerkleMap)
    requires
        old(map)@.hashes.len() > 0,
    ensures
        final(map)@ == (MapModel {
            init_hash: Some(zero_hash()),
            ..with_zeroed_leaf(old(map)@)
        }),
{
    zero_leaf(map);
    map.init_hash = Some(zero_buffer());
}

/// Forges the hashes of a rendition in its own file's binding: the first hash of the map at
/// `rung` becomes zeros.
pub fn forge_own(hash: &mut BmffHash, rung: usize)
    requires
        has_leaf(old(hash)@, rung as int),
    ensures
        final(hash)@ == own_forged(old(hash)@, rung as int),
{
    if let Some(maps) = &mut hash.merkle {
        zero_leaf(&mut maps[rung]);
    }
    assert(hash@.merkle.unwrap() =~= own_forged(old(hash)@, rung as int).merkle.unwrap());
}

proof fn lemma_sibling(rung: int, rungs: nat)
    requires
        0 <= rung < rungs,
    ensures
        sibling_of(rung, rungs) == if rung + 1 == rungs {
            0
        } else {
            rung + 1
        },
{
    let n = rungs as int;
    if rung + 1 == n {
        assert((rung + 1) % n == 0) by (nonlinear_arith)
            requires
                rung + 1 == n,
                n > 0,
        ;
    } else {
        assert((rung + 1) % n == rung + 1) by (nonlinear_arith)
            requires
                0 <= rung + 1 < n,
        ;
    }
}

/// Forges the hashes of another rendition: the first hash and the initialisation hash in the map
/// of the rung that follows `rung` become zeros.
pub fn forge_sibling(hash: &mut BmffHash, rung: usize)
    requires
        old(hash)@.merkle matches Some(maps) && rung < maps.len() && has_leaf(
            old(hash)@,
            sibling_of(rung as int, maps.len()),
        ),
    ensures
        final(hash)@ == sibling_forged(old(hash)@, rung as int),
{
    if let Some(maps) = &mut hash.merkle {
        let rungs: usize = maps.len();
        let sibling: usize = if rung == rungs - 1 {
            0
        } else {
            rung + 1
        };
        proof {
            lemma_sibling(rung as int, maps@.len());
        }
        zero_leaf_and_init(&mut maps[sibling]);
    }
    assert(hash@.merkle.unwrap() =~= sibling_forged(old(hash)@, rung as int).merkle.unwrap());
}

/// How a reader judges a file's provenance.
#[derive(Clone, Copy, Debug, PartialEq, Eq, Structural)]
pub enum ValidationState {
    Invalid,
    Valid,
    Trusted,
}

/// What a reader reports of a file: its judgement and, where there is an active manifest, the
/// hash binding that this manifest holds under [`BINDING_LABEL`].
pub struct Reading {
    pub state: ValidationState,
    pub active: Option<ActiveManifest>,
}

/// The active manifest of a file, as far as its hash binding goes.
pub struct ActiveManifest {
    pub binding: Option<BmffHash>,
}

/// The model of a reading.
pub ghost struct ReadingModel {
    pub state: ValidationState,
    pub active: Option<Option<HashModel>>,
}

impl View for Reading {
    type V = ReadingModel;

    open spec fn view(&self) -> ReadingModel {
        ReadingModel {
            state: self.state,
            active: match self.active {
                None => None,
                Some(manifest) => Some(
                    match manifest.binding {
                        None => None,
                        Some(hash) => Some(hash@),
                    },
                ),
            },
        }
    }
}

/// The label under which a manifest holds its hash binding.
pub const BINDING_LABEL: &'static str = "c2pa.hash.bmff.v3";

/// The version in which a hash binding under [`BINDING_LABEL`] is evaluated.
pub const BINDING_VERSION: usize = 3;

/// Why a file has no confirmed hash binding.
#[derive(Clone, Copy, Debug, PartialEq, Eq, Structural)]
pub enum BindingFault {
    /// The reader judged the file invalid.
    InvalidState,
    /// The file has no active manifest.
    NoManifest,
    /// The active manifest has no hash binding.
    NoBinding,
    /// The hashes of the binding are not those of the file.
    HashMismatch,
}

/// The hash binding that a reading claims, evaluated in version three.
pub open spec fn claimed(reading: ReadingModel) -> Result<HashModel, BindingFault> {
    if reading.state == ValidationState::Invalid {
        Err(BindingFault::InvalidState)
    } else {
        match reading.active {
            None => Err(BindingFault::NoManifest),
            Some(None) => Err(BindingFault::NoBinding),
            Some(Some(hash)) => Ok(HashModel { bmff_version: BINDING_VERSION as nat, ..hash }),
        }
    }
}

impl BmffHash {
    /// Sets the version in which the binding is evaluated.
    pub fn set_bmff_version(&mut self, version: usize)
        ensures
            final(self)@ == (HashModel { bmff_version: version as nat, ..old(self)@ }),
    {
        self.bmff_version = version;
    }
}

/// The hash binding that a reading claims.
pub fn claimed_binding(reading: Reading) -> (hash: Result<BmffHash, BindingFault>)
    ensures
        match hash {
            Ok(h) => claimed(reading@) == Ok::<HashModel, BindingFault>(h@),
            Err(fault) => claimed(reading@) == Err::<HashModel, BindingFault>(fault),
        },
{
    if reading.state == ValidationState::Invalid {
        return Err(BindingFault::InvalidState);
    }
    match reading.active {
        None => Err(BindingFault::NoManifest),
        Some(manifest) => match manifest.binding {
            None => Err(BindingFault::NoBinding),
            Some(mut hash) => {
                hash.set_bmff_version(BINDING_VERSION);
                Ok(hash)
            },
        },
    }
}

/// The binding, where its hashes have been found to be those of the file.
pub fn confirmed_binding(hash: BmffHash, verified: bool) -> (confirmed: Result<
    BmffHash,
    BindingFault,
>)
    ensures
        confirmed == if verified {
            Ok::<BmffHash, BindingFault>(hash)
        } else {
            Err::<BmffHash, BindingFault>(BindingFault::HashMismatch)
        },
{
    if verified {
        Ok(hash)
    } else {
        Err(BindingFault::HashMismatch)
    }
}

/// Whether `confirmed` is what becomes of a reading when `verify` judges the hashes that it
/// claims: the claimed binding where they pass, else the fault.
pub open spec fn is_binding_of<F: FnOnce(&BmffHash) -> bool>(
    reading: ReadingModel,
    verify: F,
    confirmed: Result<BmffHash, BindingFault>,
) -> bool {
    match claimed(reading) {
        Err(fault) => confirmed == Err::<BmffHash, BindingFault>(fault),
        Ok(model) => match confirmed {
            Ok(h) => h@ == model && verify.ensures((&h,), true),
            Err(fault) => fault == BindingFault::HashMismatch && exists|h: &BmffHash|
                h@ == model && #[trigger] verify.ensures((h,), false),
        },
    }
}

/// The confirmed hash binding of a file: the one that its reading claims, if `verify` finds the
/// hashes in it to be those of the file. `verify` is called for a claimed binding only.
pub fn binding<F: FnOnce(&BmffHash) -> bool>(reading: Reading, verify: F) -> (confirmed: Result<
    BmffHash,
    BindingFault,
>)
    requires
        forall|h: &BmffHash| #[trigger] verify.requires((h,)),
    ensures
        is_binding_of(reading@, verify, confirmed),
{
    match claimed_binding(reading) {
        Err(fault) => Err(fault),
        Ok(hash) => {
            let verified = verify(&hash);
            confirmed_binding(hash, verified)
        },
    }
}

/// Whether the maps describe a ladder: one map for each rendition, numbered from one, with as
/// many hashes as the rendition has fragments.
pub open spec fn describes_ladder(hash: HashModel, fragments: Seq<usize>) -> bool {
    &&& hash.merkle matches Some(maps)
    &&& maps.len() == fragments.len()
    &&& forall|k: int|
        0 <= k < maps.len() ==> {
            &&& (#[trigger] maps[k]).unique_id == k + 1
            &&& maps[k].count == fragments[k]
            &&& maps[k].hashes.len() == maps[k].count
        }
}

/// Whether the binding describes a ladder whose renditions have the given fragment counts.
pub fn check_maps(hash: &BmffHash, fragments: &Vec<usize>) -> (holds: bool)
    ensures
        holds == describes_ladder(hash@, fragments@),
{
    let maps = match &hash.merkle {
        Some(maps) => maps,
        None => {
            return false;
        },
    };
    let ghost models = map_models(maps@);
    if maps.len() != fragments.len() {
        return false;
    }
    let mut i: usize = 0;
    while i < maps.len()
        invariant
            models == map_models(maps@),
            hash@.merkle == Some(models),
            maps@.len() == fragments@.len(),
            i <= maps@.len(),
            forall|k: int|
                0 <= k < i ==> {
                    &&& (#[trigger] models[k]).unique_id == k + 1
                    &&& models[k].count == fragments@[k]
                    &&& models[k].hashes.len() == models[k].count
                },
        decreases maps@.len() - i,
    {
        let map = &maps[i];
        assert(models[i as int] == map@);
        if map.unique_id != i + 1 || map.count != fragments[i] || map.hashes.len() != map.count {
            return false;
        }
        i += 1;
    }
    true
}

/// Whether the binding has exactly `rungs` Merkle maps.
pub fn has_map_count(hash: &BmffHash, rungs: usize) -> (holds: bool)
    ensures
        holds == (hash@.merkle matches Some(maps) && maps.len() == rungs),
{
    match &hash.merkle {
        Some(maps) => maps.len() == rungs,
        None => false,
    }
}

fn same_buffer(a: &serde_bytes::ByteBuf, b: &serde_bytes::ByteBuf) -> (same: bool)
    ensures
        same == (buffered(*a) == buffered(*b)),
{
    same_bytes(buffer_bytes(a), buffer_bytes(b))
}

fn copy_buffer(buffer: &serde_bytes::ByteBuf) -> (copy: serde_bytes::ByteBuf)
    ensures
        buffered(copy) == buffered(*buffer),
{
    buffer_from(vstd::slice::slice_to_vec(buffer_bytes(buffer)))
}

fn copy_opt_buffer(buffer: &Option<serde_bytes::ByteBuf>) -> (copy: Option<serde_bytes::ByteBuf>)
    ensures
        opt_buffered(copy) == opt_buffered(*buffer),
{
    match buffer {
        Some(b) => Some(copy_buffer(b)),
        None => None,
    }
}

fn copy_map(map: &MerkleMap) -> (copy: MerkleMap)
    ensures
        copy@ == map@,
{
    let mut hashes: Vec<serde_bytes::ByteBuf> = Vec::new();
    let mut i: usize = 0;
    while i < map.hashes.len()
        invariant
            i <= map.hashes@.len(),
            hashes@.len() == i,
            forall|k: int|
                0 <= k < i ==> buffered(#[trigger] hashes@[k]) == buffered(map.hashes@[k]),
        decreases map.hashes@.len() - i,
    {
        hashes.push(copy_buffer(&map.hashes[i]));
        i += 1;
    }
    let copy = MerkleMap {
        unique_id: map.unique_id,
        local_id: map.local_id,
        count: map.count,
        hashes,
        init_hash: copy_opt_buffer(&map.init_hash),
    };
    assert(copy@.hashes =~= map@.hashes);
    copy
}

fn copy_maps(maps: &Vec<MerkleMap>) -> (copy: Vec<MerkleMap>)
    ensures
        map_models(copy@) == map_models(maps@),
{
    let mut copy: Vec<MerkleMap> = Vec::new();
    let mut i: usize = 0;
    while i < maps.len()
        invariant
            i <= maps@.len(),
            copy@.len() == i,
            forall|k: int| 0 <= k < i ==> (#[trigger] copy@[k])@ == maps@[k]@,
        decreases maps@.len() - i,
    {
        copy.push(copy_map(&maps[i]));
        i += 1;
    }
    assert(map_models(copy@) =~= map_models(maps@));
    copy
}

/// A binding of its own with the same contents.
pub fn copy_binding(hash: &BmffHash) -> (copy: BmffHash)
    ensures
        copy@ == hash@,
{
    BmffHash {
        hash: copy_opt_buffer(&hash.hash),
        merkle: match &hash.merkle {
            Some(maps) => Some(copy_maps(maps)),
            None => None,
        },
        bmff_version: hash.bmff_version,
    }
}

fn same_map(a: &MerkleMap, b: &MerkleMap) -> (same: bool)
    ensures
        same == (a@ == b@),
{
    if a.unique_id != b.unique_id || a.local_id != b.local_id || a.count != b.count {
        return false;
    }
    let same_init = match (&a.init_hash, &b.init_hash) {
        (Some(x), Some(y)) => same_buffer(x, y),
        (None, None) => true,
        _ => false,
    };
    if !same_init {
        return false;
    }
    if a.hashes.len() != b.hashes.len() {
        assert(a@.hashes.len() != b@.hashes.len());
        return false;
    }
    let mut i: usize = 0;
    while i < a.hashes.len()
        invariant
            a.hashes@.len() == b.hashes@.len(),
            i <= a.hashes@.len(),
            forall|k: int| 0 <= k < i ==> #[trigger] a@.hashes[k] == b@.hashes[k],
        decreases a.hashes@.len() - i,
    {
        if !same_buffer(&a.hashes[i], &b.hashes[i]) {
            assert(a@.hashes[i as int] != b@.hashes[i as int]);
            return false;
        }
        i += 1;
    }
    assert(a@.hashes =~= b@.hashes);
    true
}

/// Whether two bindings hold the same Merkle maps.
pub fn same_maps(a: &BmffHash, b: &BmffHash) -> (same: bool)
    ensures
        same == (a@.merkle == b@.merkle),
{
    let (x, y) = match (&a.merkle, &b.merkle) {
        (Some(x), Some(y)) => (x, y),
        (None, None) => {
            return true;
        },
        _ => {
            return false;
        },
    };
    let ghost xs = map_models(x@);
    let ghost ys = map_models(y@);
    if x.len() != y.len() {
        assert(xs.len() != ys.len());
        return false;
    }
    let mut i: usize = 0;
    while i < x.len()
        invariant
            xs == map_models(x@),
            ys == map_models(y@),
            a@.merkle == Some(xs),
            b@.merkle == Some(ys),
            x@.len() == y@.len(),
            i <= x@.len(),
            forall|k: int| 0 <= k < i ==> #[trigger] xs[k] == ys[k],
        decreases x@.len() - i,
    {
        if !same_map(&x[i], &y[i]) {
            assert(xs[i as int] != ys[i as int]);
            return false;
        }
        i += 1;
    }
    assert(xs =~= ys);
    true
}

/// Forging a sibling leaves every other map as it was, a rendition's own among them; so what is
/// decided from a rendition's own map alone cannot change by it.
pub proof fn law_forging_a_sibling_leaves_the_own_map(hash: HashModel, rung: int)
    requires
        hash.merkle matches Some(maps) && 0 <= rung < maps.len() && maps.len() > 1,
    ensures
        ({
            let maps = hash.merkle.unwrap();
            let forged = sibling_forged(hash, rung).merkle.unwrap();
            &&& sibling_of(rung, maps.len()) != rung
            &&& 0 <= sibling_of(rung, maps.len()) < maps.len()
            &&& forged.len() == maps.len()
            &&& forall|k: int|
                0 <= k < maps.len() && k != sibling_of(rung, maps.len()) ==> #[trigger] forged[k]
                    == maps[k]
            &&& forged[rung] == maps[rung]
        }),
{
    lemma_sibling(rung, hash.merkle.unwrap().len());
}

/// Forging a rendition's own map changes that map, unless its first hash was zeros before, and
/// no other.
pub proof fn law_forging_the_own_map_shows(hash: HashModel, rung: int)
    requires
        has_leaf(hash, rung),
    ensures
        ({
            let maps = hash.merkle.unwrap();
            let forged = own_forged(hash, rung).merkle.unwrap();
            &&& forged.len() == maps.len()
            &&& forged[rung] == maps[rung] <==> maps[rung].hashes[0] == zero_hash()
            &&& forall|k: int|
                0 <= k < maps.len() && k != rung ==> #[trigger] forged[k] == maps[k]
        }),
{
    let maps = hash.merkle.unwrap();
    let forged = own_forged(hash, rung).merkle.unwrap();
    assert(forged[rung].hashes[0] == zero_hash());
    if maps[rung].hashes[0] == zero_hash() {
        assert(forged[rung].hashes =~= maps[rung].hashes);
    }
}

/// In a binding that describes a ladder no two renditions share a number.
pub proof fn law_rendition_numbers_are_distinct(hash: HashModel, fragments: Seq<usize>)
    requires
        describes_ladder(hash, fragments),
    ensures
        ({
            let maps = hash.merkle.unwrap();
            &&& forall|j: int, k: int|
                0 <= j < k < maps.len() ==> (#[trigger] maps[j]).unique_id != (
                #[trigger] maps[k]).unique_id
            &&& forall|k: int|
                0 <= k < maps.len() ==> 1 <= (#[trigger] maps[k]).unique_id <= maps.len()
        }),
{
}

/// Bindings of equal readings have equal contents, whoever verified them and whatever was done
/// with the first before the second was made; and where the verification goes by the contents of
/// a binding alone, the second is confirmed exactly where the first was.
pub proof fn law_bindings_of_one_reading_agree<F: FnOnce(&BmffHash) -> bool>(
    reading: ReadingModel,
    verify: F,
    first: Result<BmffHash, BindingFault>,
    second: Result<BmffHash, BindingFault>,
)
    requires
        is_binding_of(reading, verify, first),
        is_binding_of(reading, verify, second),
    ensures
        first is Ok && second is Ok ==> first.unwrap()@ == second.unwrap()@,
        (forall|g: &BmffHash, h: &BmffHash, x: bool, y: bool|
            g@ == h@ && #[trigger] verify.ensures((g,), x) && #[trigger] verify.ensures((h,), y)
                ==> x == y) ==> (first is Ok <==> second is Ok),
        first is Err && second is Err ==> first == second,
{
}

/// Rungs of one ladder claim the same binding: where the binding that a reader reports is the one
/// that the manifest in the file holds, files with one manifest have equal bindings.
pub proof fn law_one_manifest_gives_one_binding(
    held: spec_fn(Seq<u8>) -> Option<HashModel>,
    manifest: Seq<u8>,
    a: ReadingModel,
    b: ReadingModel,
)
    requires
        a.active == Some(held(manifest)),
        b.active == Some(held(manifest)),
        claimed(a) is Ok,
        claimed(b) is Ok,
    ensures
        claimed(a) == claimed(b),
{
}

/// Two bindings that describe one ladder agree in the number of their maps and in the number, the
/// count and the number of hashes of each.
pub proof fn law_bindings_of_one_ladder_agree(
    a: HashModel,
    b: HashModel,
    fragments: Seq<usize>,
)
    requires
        describes_ladder(a, fragments),
        describes_ladder(b, fragments),
    ensures
        ({
            let x = a.merkle.unwrap();
            let y = b.merkle.unwrap();
            &&& x.len() == y.len()
            &&& forall|k: int|
                0 <= k < x.len() ==> {
                    &&& (#[trigger] x[k]).unique_id == (#[trigger] y[k]).unique_id
                    &&& x[k].count == y[k].count
                    &&& x[k].hashes.len() == y[k].hashes.len()
                }
        }),
{
}

/// The model of a binding holds what the binding holds: the bytes of its hash, if it has one, its
/// version, and each of its maps with every field and the bytes of every hash.
pub proof fn law_binding_model_holds_the_binding(hash: BmffHash)
    ensures
        hash@.bmff_version == hash.bmff_version,
        hash@.hash is Some <==> hash.hash is Some,
        hash.hash matches Some(b) ==> hash@.hash == Some(buffered(b)),
        hash@.merkle is Some <==> hash.merkle is Some,
        hash.merkle matches Some(maps) ==> {
            let models = hash@.merkle.unwrap();
            &&& models.len() == maps@.len()
            &&& forall|k: int|
                #![trigger models[k]]
                #![trigger maps@[k]]
                0 <= k < maps@.len() ==> {
                    &&& models[k].unique_id == maps@[k].unique_id
                    &&& models[k].local_id == maps@[k].local_id
                    &&& models[k].count == maps@[k].count
                    &&& models[k].init_hash is Some <==> maps@[k].init_hash is Some
                    &&& maps@[k].init_hash matches Some(b) ==> models[k].init_hash == Some(
                        buffered(b),
                    )
                    &&& models[k].hashes.len() == maps@[k].hashes@.len()
                    &&& forall|j: int|
                        0 <= j < maps@[k].hashes@.len() ==> #[trigger] models[k].hashes[j]
                            == buffered(maps@[k].hashes@[j])
                }
        },
{
}

/// A file claims the binding that its active manifest holds, whole: with that whole-file hash, if
/// there is one, and those Merkle maps, if there are any, in version three whatever version it had.
/// It claims one exactly where the reader does not judge it invalid and there is such a binding;
/// else the fault is the first that is met, in the order state, manifest, binding.
pub proof fn law_claimed_binding_is_the_one_held(reading: Reading)
    ensures
        ({
            let claim = claimed(reading@);
            let valid = reading.state != ValidationState::Invalid;
            &&& claim == Err::<HashModel, BindingFault>(BindingFault::InvalidState) <==> !valid
            &&& claim == Err::<HashModel, BindingFault>(BindingFault::NoManifest) <==> valid
                && reading.active is None
            &&& claim == Err::<HashModel, BindingFault>(BindingFault::NoBinding) <==> valid && (
            reading.active matches Some(m) && m.binding is None)
            &&& claim is Ok <==> valid && (reading.active matches Some(m) && m.binding is Some)
            &&& claim is Ok ==> {
                let held = reading.active.unwrap().binding.unwrap();
                &&& claim.unwrap().hash == held@.hash
                &&& claim.unwrap().hash is Some <==> held.hash is Some
                &&& claim.unwrap().merkle == held@.merkle
                &&& claim.unwrap().merkle is Some <==> held.merkle is Some
                &&& claim.unwrap().bmff_version == 3
            }
        }),
{
}

/// Where a binding is confirmed, the file claims it, and it passed verification; where it is not,
/// the file claims none, or verification failed. So a binding is owed wherever the file claims
/// one and verification cannot fail on it.
pub proof fn law_confirmed_bindings_are_claimed_and_verified<F: FnOnce(&BmffHash) -> bool>(
    reading: Reading,
    verify: F,
    confirmed: Result<BmffHash, BindingFault>,
)
    requires
        is_binding_of(reading@, verify, confirmed),
    ensures
        ({
            let held = reading.active.unwrap().binding.unwrap();
            let claims = reading.state != ValidationState::Invalid && (reading.active matches Some(
                m,
            ) && m.binding is Some);
            &&& confirmed matches Ok(h) ==> {
                &&& claims
                &&& h@.hash == held@.hash
                &&& h@.merkle == held@.merkle
                &&& h@.bmff_version == 3
                &&& verify.ensures((&h,), true)
            }
            &&& confirmed == Err::<BmffHash, BindingFault>(BindingFault::InvalidState)
                <==> reading.state == ValidationState::Invalid
            &&& confirmed == Err::<BmffHash, BindingFault>(BindingFault::NoManifest)
                <==> reading.state != ValidationState::Invalid && reading.active is None
            &&& confirmed == Err::<BmffHash, BindingFault>(BindingFault::NoBinding)
                <==> reading.state != ValidationState::Invalid && (reading.active matches Some(m)
                && m.binding is None)
            &&& confirmed == Err::<BmffHash, BindingFault>(BindingFault::HashMismatch) ==> claims
                && exists|h: &BmffHash|
                h@.hash == held@.hash && h@.merkle == held@.merkle && h@.bmff_version == 3
                    && #[trigger] verify.ensures((h,), false)
            &&& claims && (forall|h: &BmffHash| !#[trigger] verify.ensures((h,), false))
                ==> confirmed is Ok
        }),
{
    law_claimed_binding_is_the_one_held(reading);
}

/// A binding describes a ladder exactly where it has one map for each rendition, in order and
/// numbered from one, that counts the rendition's fragments and holds as many hashes; whatever
/// else the maps say.
pub proof fn law_ladder_maps_count_the_fragments(hash: BmffHash, fragments: Seq<usize>)
    ensures
        describes_ladder(hash@, fragments) <==> {
            &&& hash.merkle matches Some(maps)
            &&& maps@.len() == fragments.len()
            &&& forall|k: int|
                0 <= k < maps@.len() ==> {
                    &&& (#[trigger] maps@[k]).unique_id == k + 1
                    &&& maps@[k].count == fragments[k]
                    &&& maps@[k].hashes@.len() == fragments[k]
                }
        },
{
    law_binding_model_holds_the_binding(hash);
    if let Some(maps) = hash.merkle {
        let models = hash@.merkle.unwrap();
        assert forall|k: int| 0 <= k < maps@.len() implies (#[trigger] models[k]).hashes.len()
            == maps@[k].hashes@.len() by {}
        if describes_ladder(hash@, fragments) {
            assert forall|k: int| 0 <= k < maps@.len() implies {
                &&& (#[trigger] maps@[k]).unique_id == k + 1
                &&& maps@[k].count == fragments[k]
                &&& maps@[k].hashes@.len() == fragments[k]
            } by {
                assert(models[k].unique_id == k + 1);
            }
        }
    }
}

/// Two bindings have the same maps exactly where neither has any, or both have as many, with the
/// same numbers, counts, hashes and initialisation hashes; their whole-file hashes and versions
/// count for nothing.
pub proof fn law_maps_are_the_same_where_all_parts_are(a: BmffHash, b: BmffHash)
    ensures
        a@.merkle == b@.merkle <==> (a.merkle is None && b.merkle is None) || {
            &&& a.merkle matches Some(x)
            &&& b.merkle matches Some(y)
            &&& x@.len() == y@.len()
            &&& forall|k: int|
                0 <= k < x@.len() ==> {
                    &&& (#[trigger] x@[k]).unique_id == (#[trigger] y@[k]).unique_id
                    &&& x@[k].local_id == y@[k].local_id
                    &&& x@[k].count == y@[k].count
                    &&& opt_buffered(x@[k].init_hash) == opt_buffered(y@[k].init_hash)
                    &&& x@[k].hashes@.len() == y@[k].hashes@.len()
                    &&& forall|j: int|
                        0 <= j < x@[k].hashes@.len() ==> buffered(#[trigger] x@[k].hashes@[j])
                            == buffered(#[trigger] y@[k].hashes@[j])
                }
        },
{
    if let (Some(x), Some(y)) = (a.merkle, b.merkle) {
        let xs = a@.merkle.unwrap();
        let ys = b@.merkle.unwrap();
        assert(xs.len() == x@.len() && ys.len() == y@.len());
        assert forall|k: int|
            #![trigger x@[k]]
            0 <= k < x@.len() && x@.len() == y@.len() implies (xs[k] == ys[k] <==> {
            &&& x@[k].unique_id == y@[k].unique_id
            &&& x@[k].local_id == y@[k].local_id
            &&& x@[k].count == y@[k].count
            &&& opt_buffered(x@[k].init_hash) == opt_buffered(y@[k].init_hash)
            &&& x@[k].hashes@.len() == y@[k].hashes@.len()
            &&& forall|j: int|
                0 <= j < x@[k].hashes@.len() ==> buffered(#[trigger] x@[k].hashes@[j]) == buffered(
                    #[trigger] y@[k].hashes@[j],
                )
        }) by {
            lemma_same_map(x@[k], y@[k]);
            assert(xs[k] == x@[k]@ && ys[k] == y@[k]@);
        }
        if a@.merkle == b@.merkle {
            assert forall|k: int| 0 <= k < x@.len() implies xs[k] == #[trigger] ys[k] by {}
        } else if x@.len() == y@.len() {
            if forall|k: int| 0 <= k < x@.len() ==> xs[k] == #[trigger] ys[k] {
                assert(xs =~= ys);
            }
            let k = choose|k: int| 0 <= k < x@.len() && xs[k] != #[trigger] ys[k];
            assert(x@[k].unique_id == x@[k].unique_id);
        }
    }
}

proof fn lemma_same_map(x: MerkleMap, y: MerkleMap)
    ensures
        x@ == y@ <==> {
            &&& x.unique_id == y.unique_id
            &&& x.local_id == y.local_id
            &&& x.count == y.count
            &&& opt_buffered(x.init_hash) == opt_buffered(y.init_hash)
            &&& x.hashes@.len() == y.hashes@.len()
            &&& forall|j: int|
                0 <= j < x.hashes@.len() ==> buffered(#[trigger] x.hashes@[j]) == buffered(
                    #[trigger] y.hashes@[j],
                )
        },
{
    if x@ == y@ {
        assert(x@.hashes.len() == x.hashes@.len() && y@.hashes.len() == y.hashes@.len());
        assert forall|j: int| 0 <= j < x.hashes@.len() implies buffered(#[trigger] x.hashes@[j])
            == buffered(#[trigger] y.hashes@[j]) by {
            assert(x@.hashes[j] == y@.hashes[j]);
        }
    }
    if x.hashes@.len() == y.hashes@.len() && forall|j: int|
        0 <= j < x.hashes@.len() ==> buffered(#[trigger] x.hashes@[j]) == buffered(
            #[trigger] y.hashes@[j],
        ) {
        assert forall|j: int| 0 <= j < x.hashes@.len() implies x@.hashes[j] == y@.hashes[j] by {
            assert(buffered(x.hashes@[j]) == buffered(y.hashes@[j]));
        }
        assert(x@.hashes =~= y@.hashes);
    }
}

/// Forging a rendition's own map puts thirty-two zeros in place of the first hash of that map, and
/// changes nothing else of the binding. It can be done where there is such a hash.
pub proof fn law_forging_the_own_map_zeroes_one_hash(hash: HashModel, rung: int)
    ensures
        has_leaf(hash, rung) <==> (hash.merkle matches Some(maps) && 0 <= rung < maps.len()
            && maps[rung].hashes.len() > 0),
        has_leaf(hash, rung) ==> {
            let forged = own_forged(hash, rung);
            let before = hash.merkle.unwrap();
            let after = forged.merkle.unwrap();
            &&& forged.hash == hash.hash
            &&& forged.bmff_version == hash.bmff_version
            &&& forged.merkle is Some
            &&& after.len() == before.len()
            &&& forall|k: int|
                0 <= k < before.len() && k != rung ==> #[trigger] after[k] == before[k]
            &&& after[rung].unique_id == before[rung].unique_id
            &&& after[rung].local_id == before[rung].local_id
            &&& after[rung].count == before[rung].count
            &&& after[rung].init_hash == before[rung].init_hash
            &&& after[rung].hashes.len() == before[rung].hashes.len()
            &&& after[rung].hashes[0].len() == 32
            &&& forall|j: int| 0 <= j < 32 ==> #[trigger] after[rung].hashes[0][j] == 0
            &&& forall|j: int|
                1 <= j < before[rung].hashes.len() ==> #[trigger] after[rung].hashes[j]
                    == before[rung].hashes[j]
        },
{
}

/// Forging a sibling goes for the map of the next rung, and from the last rung for that of the
/// first: thirty-two zeros take the place of its first hash and of its initialisation hash, and
/// nothing else of the binding changes.
pub proof fn law_forging_a_sibling_zeroes_two_hashes(hash: HashModel, rung: int, next: int)
    requires
        hash.merkle matches Some(maps) && 0 <= rung < maps.len() && 0 <= next < maps.len()
            && maps[next].hashes.len() > 0 && (next == rung + 1 || (next == 0 && rung + 1
            == maps.len())),
    ensures
        ({
            let before = hash.merkle.unwrap();
            let forged = sibling_forged(hash, rung);
            let after = forged.merkle.unwrap();
            &&& sibling_of(rung, before.len()) == next
            &&& forged.hash == hash.hash
            &&& forged.bmff_version == hash.bmff_version
            &&& forged.merkle is Some
            &&& after.len() == before.len()
            &&& forall|k: int|
                0 <= k < before.len() && k != next ==> #[trigger] after[k] == before[k]
            &&& after[next].unique_id == before[next].unique_id
            &&& after[next].local_id == before[next].local_id
            &&& after[next].count == before[next].count
            &&& after[next].init_hash matches Some(zeros)
            &&& zeros.len() == 32
            &&& forall|j: int| 0 <= j < 32 ==> #[trigger] zeros[j] == 0
            &&& after[next].hashes.len() == before[next].hashes.len()
            &&& after[next].hashes[0] == zeros
            &&& forall|j: int|
                1 <= j < before[next].hashes.len() ==> #[trigger] after[next].hashes[j]
                    == before[next].hashes[j]
        }),
{
    lemma_sibling(rung, hash.merkle.unwrap().len());
}

} // verus!
