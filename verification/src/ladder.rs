//! The rungs of a signed ladder: one shared manifest, and a numbered rendition in each file.

use vstd::prelude::*;

use crate::boxes::{
    find_manifest_box, first_with_path, FileBoxes, FragmentEntry, has_manifest_box, has_media_byte,
    law_first_box_with_a_path, law_spans_are_the_boxes, manifest_range, media_byte, spans, strip,
    tamper_media, with_path,
};
use crate::bytes::{bytes_of, flipped, holds_bytes, same_bytes};
use crate::index::{check_index, index_agrees};
use crate::merkle::{
    BmffHash, copy_binding, describes_ladder, forge_own, forge_sibling, has_leaf, has_map_count,
    HashModel, law_binding_model_holds_the_binding, own_forged, same_maps, sibling_forged,
    sibling_of,
};

verus! {

/// What is wrong with a rung.
#[derive(Clone, Copy, Debug, PartialEq, Eq, Structural)]
pub enum RungFault {
    /// The file does not hold the manifest of the ladder.
    Manifest,
    /// The auxiliary boxes do not start at the first Merkle box.
    AuxiliaryOffset,
    /// There is not one Merkle entry for each fragment.
    FragmentCount,
    /// The segment index does not agree with the fragments.
    Index,
    /// The Merkle entries are not numbered by rendition and fragment.
    Numbering,
}

/// Whether the first auxiliary box is the first Merkle box.
pub open spec fn starts_with_merkle_box(boxes: FileBoxes) -> bool {
    &&& boxes.bmff_merkle_box_infos@.len() > 0
    &&& boxes.first_aux_uuid_offset == boxes.bmff_merkle_box_infos@[0].offset
}

/// Whether the segment index, where the file has one, agrees with the fragments.
pub open spec fn is_indexed(bytes: Seq<u8>, boxes: FileBoxes) -> bool {
    let all = spans(boxes.box_infos@);
    with_path(all, "sidx"@).len() > 0 ==> index_agrees(
        bytes,
        with_path(all, "sidx"@)[0],
        spans(boxes.bmff_merkle_box_infos@),
        with_path(all, "mdat"@),
    )
}

/// Whether the Merkle entries belong to rendition `rung`, counted from zero but numbered from
/// one, and give the place of each fragment.
pub open spec fn is_numbered(entries: Seq<FragmentEntry>, rung: nat) -> bool {
    forall|k: int|
        0 <= k < entries.len() ==> {
            &&& (#[trigger] entries[k]).unique_id == rung + 1
            &&& entries[k].local_id == 1
            &&& entries[k].location == k
        }
}

/// What is to be said of the file of a rung with so many fragments.
pub open spec fn rung_verdict(
    bytes: Seq<u8>,
    boxes: FileBoxes,
    manifest: Seq<u8>,
    rung: nat,
    fragments: nat,
) -> Result<(), RungFault> {
    if bytes_of(boxes.manifest_bytes) != Some(manifest) {
        Err(RungFault::Manifest)
    } else if !starts_with_merkle_box(boxes) {
        Err(RungFault::AuxiliaryOffset)
    } else if boxes.bmff_merkle@.len() != fragments {
        Err(RungFault::FragmentCount)
    } else if !is_indexed(bytes, boxes) {
        Err(RungFault::Index)
    } else if !is_numbered(boxes.bmff_merkle@, rung) {
        Err(RungFault::Numbering)
    } else {
        Ok(())
    }
}

fn check_file_index(bytes: &[u8], boxes: &FileBoxes) -> (agrees: bool)
    ensures
        agrees == is_indexed(bytes@, *boxes),
{
    match first_with_path(&boxes.box_infos, "sidx") {
        Some(i) => check_index(
            bytes,
            &boxes.box_infos[i],
            &boxes.bmff_merkle_box_infos,
            &boxes.box_infos,
        ),
        None => true,
    }
}

fn check_numbering(entries: &Vec<FragmentEntry>, rung: usize) -> (numbered: bool)
    ensures
        numbered == is_numbered(entries@, rung as nat),
{
    let mut i: usize = 0;
    while i < entries.len()
        invariant
            i <= entries@.len(),
            forall|k: int|
                0 <= k < i ==> {
                    &&& (#[trigger] entries@[k]).unique_id == rung + 1
                    &&& entries@[k].local_id == 1
                    &&& entries@[k].location == k
                },
        decreases entries@.len() - i,
    {
        let entry = &entries[i];
        if entry.unique_id == 0 || entry.unique_id - 1 != rung || entry.local_id != 1
            || entry.location != i {
            return false;
        }
        i += 1;
    }
    true
}

/// Whether the file of a rung holds the ladder's manifest and the Merkle entries of its own
/// fragments, and has an index that agrees with them.
pub fn check_rung(
    bytes: &[u8],
    boxes: &FileBoxes,
    manifest: &[u8],
    rung: usize,
    fragments: usize,
) -> (verdict: Result<(), RungFault>)
    ensures
        verdict == rung_verdict(bytes@, *boxes, manifest@, rung as nat, fragments as nat),
{
    if !holds_bytes(&boxes.manifest_bytes, manifest) {
        return Err(RungFault::Manifest);
    }
    if boxes.bmff_merkle_box_infos.len() == 0 || boxes.first_aux_uuid_offset
        != boxes.bmff_merkle_box_infos[0].offset {
        return Err(RungFault::AuxiliaryOffset);
    }
    if boxes.bmff_merkle.len() != fragments {
        return Err(RungFault::FragmentCount);
    }
    if !check_file_index(bytes, boxes) {
        return Err(RungFault::Index);
    }
    if !check_numbering(&boxes.bmff_merkle, rung) {
        return Err(RungFault::Numbering);
    }
    Ok(())
}

/// Whether a file is rung `rung` of a ladder of `rungs`: it holds the manifest, its first Merkle
/// entry has the number of the rung, and its binding has a map for each rung.
pub open spec fn is_rung_of(
    boxes: FileBoxes,
    hash: BmffHash,
    manifest: Seq<u8>,
    rung: nat,
    rungs: nat,
) -> bool {
    &&& bytes_of(boxes.manifest_bytes) == Some(manifest)
    &&& boxes.bmff_merkle@.len() > 0
    &&& boxes.bmff_merkle@[0].unique_id == rung + 1
    &&& hash@.merkle matches Some(maps)
    &&& maps.len() == rungs
}

/// Whether a file is rung `rung` of a ladder of `rungs` with the given manifest and binding.
pub fn check_rung_number(
    boxes: &FileBoxes,
    hash: &BmffHash,
    manifest: &[u8],
    rung: usize,
    rungs: usize,
) -> (holds: bool)
    ensures
        holds == is_rung_of(*boxes, *hash, manifest@, rung as nat, rungs as nat),
{
    holds_bytes(&boxes.manifest_bytes, manifest) && boxes.bmff_merkle.len() > 0
        && boxes.bmff_merkle[0].unique_id != 0 && boxes.bmff_merkle[0].unique_id - 1 == rung
        && has_map_count(hash, rungs)
}

/// Whether these outcomes of verifying a rung show that it answers to its own media and hashes
/// only: it must fail when its own map is forged, succeed when another's is, and fail when a media
/// byte is changed.
pub fn judge_sensitivity(own_forged: bool, sibling_forged: bool, tampered: bool) -> (holds: bool)
    ensures
        holds == (!own_forged && sibling_forged && !tampered),
{
    !own_forged && sibling_forged && !tampered
}

/// Whether `verify` can give `outcome` for a binding with these contents and a file with these.
pub open spec fn can_judge<F: Fn(&BmffHash, &[u8]) -> bool>(
    verify: F,
    hash: HashModel,
    bytes: Seq<u8>,
    outcome: bool,
) -> bool {
    exists|h: &BmffHash, b: &[u8]|
        h@ == hash && b@ == bytes && #[trigger] verify.ensures((h, b), outcome)
}

/// Whether a rung answers to its own media and hashes only: `verify` is to reject the binding
/// with the rung's own map forged, to accept it with the map of the next rung forged, and to
/// reject the binding as it is for the file with a media byte changed.
pub fn check_sensitivity<F: Fn(&BmffHash, &[u8]) -> bool>(
    hash: &BmffHash,
    bytes: &[u8],
    boxes: &FileBoxes,
    rung: usize,
    verify: F,
) -> (holds: bool)
    requires
        hash@.merkle matches Some(maps) && rung < maps.len() && has_leaf(hash@, rung as int)
            && has_leaf(hash@, sibling_of(rung as int, maps.len())),
        has_media_byte(spans(boxes.box_infos@), bytes@.len()),
        forall|h: &BmffHash, b: &[u8]| #[trigger] verify.requires((h, b)),
    ensures
        ({
            let own = own_forged(hash@, rung as int);
            let sibling = sibling_forged(hash@, rung as int);
            let tampered = flipped(bytes@, media_byte(spans(boxes.box_infos@)));
            if holds {
                &&& can_judge(verify, own, bytes@, false)
                &&& can_judge(verify, sibling, bytes@, true)
                &&& can_judge(verify, hash@, tampered, false)
            } else {
                ||| can_judge(verify, own, bytes@, true)
                ||| can_judge(verify, sibling, bytes@, false)
                ||| can_judge(verify, hash@, tampered, true)
            }
        }),
{
    let mut own = copy_binding(hash);
    forge_own(&mut own, rung);
    let own_outcome = verify(&own, bytes);
    let mut sibling = copy_binding(hash);
    forge_sibling(&mut sibling, rung);
    let sibling_outcome = verify(&sibling, bytes);
    let mut tampered = vstd::slice::slice_to_vec(bytes);
    tamper_media(&mut tampered, boxes);
    let tampered_outcome = verify(hash, tampered.as_slice());
    judge_sensitivity(own_outcome, sibling_outcome, tampered_outcome)
}

/// What was read of the file of a signed rung: its boxes and its confirmed binding.
pub struct SignedRung {
    pub boxes: FileBoxes,
    pub hash: BmffHash,
}

/// Whether the files are the rungs of one ladder: each holds the manifest, and all have the same
/// Merkle maps, one for each rung.
pub open spec fn is_one_ladder(rungs: Seq<SignedRung>, manifest: Seq<u8>) -> bool {
    forall|k: int|
        0 <= k < rungs.len() ==> {
            &&& bytes_of((#[trigger] rungs[k]).boxes.manifest_bytes) == Some(manifest)
            &&& rungs[k].hash@.merkle == rungs[0].hash@.merkle
            &&& rungs[k].hash@.merkle matches Some(maps)
            &&& maps.len() == rungs.len()
        }
}

/// Whether the files are the rungs of one ladder with the given manifest.
pub fn check_one_ladder(rungs: &Vec<SignedRung>, manifest: &[u8]) -> (holds: bool)
    ensures
        holds == is_one_ladder(rungs@, manifest@),
{
    let mut i: usize = 0;
    while i < rungs.len()
        invariant
            i <= rungs@.len(),
            forall|k: int|
                0 <= k < i ==> {
                    &&& bytes_of((#[trigger] rungs@[k]).boxes.manifest_bytes) == Some(manifest@)
                    &&& rungs@[k].hash@.merkle == rungs@[0].hash@.merkle
                    &&& rungs@[k].hash@.merkle matches Some(maps)
                    &&& maps.len() == rungs@.len()
                },
        decreases rungs@.len() - i,
    {
        let rung = &rungs[i];
        if !holds_bytes(&rung.boxes.manifest_bytes, manifest) || !same_maps(
            &rung.hash,
            &rungs[0].hash,
        ) || !has_map_count(&rung.hash, rungs.len()) {
            assert(rung == rungs@[i as int]);
            return false;
        }
        i += 1;
    }
    true
}

/// Whether two files are the same but for their manifest boxes, with the same Merkle maps.
pub open spec fn differ_in_manifest_only(
    a: Seq<u8>,
    a_boxes: FileBoxes,
    a_hash: BmffHash,
    b: Seq<u8>,
    b_boxes: FileBoxes,
    b_hash: BmffHash,
) -> bool {
    &&& a_hash@.merkle == b_hash@.merkle
    &&& has_manifest_box(a_boxes, a.len())
    &&& has_manifest_box(b_boxes, b.len())
    &&& a.take(manifest_range(a_boxes).unwrap().start) == b.take(
        manifest_range(b_boxes).unwrap().start,
    )
    &&& a.skip(manifest_range(a_boxes).unwrap().end) == b.skip(
        manifest_range(b_boxes).unwrap().end,
    )
}

/// Whether the only rung of a ladder is the file that signing its source alone gives, but for
/// the manifest box.
pub fn check_single_rung(
    alone: &[u8],
    alone_boxes: &FileBoxes,
    alone_hash: &BmffHash,
    rung: &[u8],
    rung_boxes: &FileBoxes,
    rung_hash: &BmffHash,
) -> (holds: bool)
    ensures
        holds == differ_in_manifest_only(
            alone@,
            *alone_boxes,
            *alone_hash,
            rung@,
            *rung_boxes,
            *rung_hash,
        ),
{
    if !same_maps(alone_hash, rung_hash) {
        return false;
    }
    if find_manifest_box(alone_boxes, alone.len()).is_none() {
        return false;
    }
    if find_manifest_box(rung_boxes, rung.len()).is_none() {
        return false;
    }
    let (alone_before, alone_behind) = strip(alone, alone_boxes);
    let (rung_before, rung_behind) = strip(rung, rung_boxes);
    same_bytes(alone_before.as_slice(), rung_before.as_slice()) && same_bytes(
        alone_behind.as_slice(),
        rung_behind.as_slice(),
    )
}

/// The rungs of a ladder hold one and the same manifest, while no Merkle entry of one rung has
/// the number of another.
pub proof fn law_rungs_share_a_manifest_and_no_number(
    a_bytes: Seq<u8>,
    a: FileBoxes,
    a_rung: nat,
    a_fragments: nat,
    b_bytes: Seq<u8>,
    b: FileBoxes,
    b_rung: nat,
    b_fragments: nat,
    manifest: Seq<u8>,
)
    requires
        rung_verdict(a_bytes, a, manifest, a_rung, a_fragments) is Ok,
        rung_verdict(b_bytes, b, manifest, b_rung, b_fragments) is Ok,
        a_rung != b_rung,
    ensures
        bytes_of(a.manifest_bytes) == bytes_of(b.manifest_bytes),
        forall|j: int, k: int|
            0 <= j < a.bmff_merkle@.len() && 0 <= k < b.bmff_merkle@.len() ==> (
            #[trigger] a.bmff_merkle@[j]).unique_id != (#[trigger] b.bmff_merkle@[k]).unique_id,
{
}

/// Any two rungs of one ladder hold one manifest and the same Merkle maps, as many as the ladder
/// has rungs.
pub proof fn law_rungs_of_one_ladder_share_their_maps(
    rungs: Seq<SignedRung>,
    manifest: Seq<u8>,
    i: int,
    j: int,
)
    requires
        is_one_ladder(rungs, manifest),
        0 <= i < rungs.len(),
        0 <= j < rungs.len(),
    ensures
        bytes_of(rungs[i].boxes.manifest_bytes) == bytes_of(rungs[j].boxes.manifest_bytes),
        rungs[i].hash@.merkle == rungs[j].hash@.merkle,
        rungs[i].hash@.merkle matches Some(maps) && maps.len() == rungs.len(),
{
}

/// What a rung's file and the ladder's binding say of its fragments agrees: the map of the rung
/// has the number of the file's entries, and as many hashes as there are entries.
pub proof fn law_entries_agree_with_their_map(
    bytes: Seq<u8>,
    boxes: FileBoxes,
    manifest: Seq<u8>,
    rung: nat,
    fragments: Seq<usize>,
    hash: BmffHash,
)
    requires
        rung < fragments.len(),
        rung_verdict(bytes, boxes, manifest, rung, fragments[rung as int] as nat) is Ok,
        describes_ladder(hash@, fragments),
    ensures
        ({
            let map = hash@.merkle.unwrap()[rung as int];
            &&& map.hashes.len() == boxes.bmff_merkle@.len()
            &&& forall|k: int|
                0 <= k < boxes.bmff_merkle@.len() ==> (#[trigger] boxes.bmff_merkle@[k]).unique_id
                    == map.unique_id
        }),
{
}

/// Two entries of one rung stand for different fragments.
pub proof fn law_fragments_of_a_rung_are_told_apart(entries: Seq<FragmentEntry>, rung: nat)
    requires
        is_numbered(entries, rung),
    ensures
        forall|j: int, k: int|
            0 <= j < entries.len() && 0 <= k < entries.len() && #[trigger] entries[j]
                == #[trigger] entries[k] ==> j == k,
{
}

/// A single rung is the file that was signed alone, with another manifest box in the same place;
/// and whatever is such a file meets the rule.
pub proof fn law_single_rung_has_another_manifest_box_only(
    alone: Seq<u8>,
    alone_boxes: FileBoxes,
    alone_hash: BmffHash,
    rung: Seq<u8>,
    rung_boxes: FileBoxes,
    rung_hash: BmffHash,
)
    requires
        has_manifest_box(alone_boxes, alone.len()),
        has_manifest_box(rung_boxes, rung.len()),
        alone_hash@.merkle == rung_hash@.merkle,
    ensures
        ({
            let a = manifest_range(alone_boxes).unwrap();
            let r = manifest_range(rung_boxes).unwrap();
            differ_in_manifest_only(alone, alone_boxes, alone_hash, rung, rung_boxes, rung_hash)
                <==> a.start == r.start && rung == alone.take(a.start) + rung.subrange(
                r.start,
                r.end,
            ) + alone.skip(a.end)
        }),
{
    let a = manifest_range(alone_boxes).unwrap();
    let r = manifest_range(rung_boxes).unwrap();
    let mixed = alone.take(a.start) + rung.subrange(r.start, r.end) + alone.skip(a.end);
    assert(rung =~= rung.take(r.start) + rung.subrange(r.start, r.end) + rung.skip(r.end));
    if differ_in_manifest_only(alone, alone_boxes, alone_hash, rung, rung_boxes, rung_hash) {
        assert(alone.take(a.start).len() == rung.take(r.start).len());
    }
    if a.start == r.start && rung == mixed {
        assert(mixed.take(a.start) =~= alone.take(a.start));
        assert(mixed.skip(r.end) =~= alone.skip(a.end));
    }
}

/// Files are the rungs of one ladder as soon as each holds the manifest and has the Merkle maps
/// that the first has, as many as there are files; nothing else of them matters, such as how many
/// fragments and entries each has.
pub proof fn law_shared_manifest_and_maps_make_one_ladder(
    rungs: Seq<SignedRung>,
    manifest: Seq<u8>,
)
    ensures
        is_one_ladder(rungs, manifest) <==> forall|k: int|
            0 <= k < rungs.len() ==> {
                &&& (#[trigger] rungs[k]).boxes.manifest_bytes matches Some(b)
                &&& b@ == manifest
                &&& rungs[k].hash.merkle matches Some(maps)
                &&& maps@.len() == rungs.len()
                &&& rungs[k].hash@.merkle == rungs[0].hash@.merkle
            },
{
    assert forall|k: int| 0 <= k < rungs.len() implies {
        let hash = (#[trigger] rungs[k]).hash;
        &&& hash@.merkle is Some <==> hash.merkle is Some
        &&& hash@.merkle is Some ==> hash@.merkle.unwrap().len() == hash.merkle.unwrap()@.len()
    } by {
        law_binding_model_holds_the_binding(rungs[k].hash);
    }
}

/// Whether files are one ladder does not change when any of them is replaced by a file with the
/// same manifest and the same maps, whatever its boxes and entries.
pub proof fn law_one_ladder_goes_by_manifests_and_maps(
    rungs: Seq<SignedRung>,
    manifest: Seq<u8>,
    at: int,
    other: SignedRung,
)
    requires
        0 <= at < rungs.len(),
        bytes_of(other.boxes.manifest_bytes) == bytes_of(rungs[at].boxes.manifest_bytes),
        other.hash@.merkle == rungs[at].hash@.merkle,
    ensures
        is_one_ladder(rungs.update(at, other), manifest) <==> is_one_ladder(rungs, manifest),
{
    let changed = rungs.update(at, other);
    assert forall|k: int| 0 <= k < rungs.len() implies {
        &&& bytes_of((#[trigger] changed[k]).boxes.manifest_bytes) == bytes_of(
            (#[trigger] rungs[k]).boxes.manifest_bytes,
        )
        &&& changed[k].hash@.merkle == rungs[k].hash@.merkle
    } by {}
    assert(changed[0].hash@.merkle == rungs[0].hash@.merkle);
    if is_one_ladder(changed, manifest) {
        assert forall|k: int| 0 <= k < rungs.len() implies {
            &&& bytes_of((#[trigger] rungs[k]).boxes.manifest_bytes) == Some(manifest)
            &&& rungs[k].hash@.merkle == rungs[0].hash@.merkle
            &&& rungs[k].hash@.merkle matches Some(maps)
            &&& maps.len() == rungs.len()
        } by {
            assert(bytes_of(changed[k].boxes.manifest_bytes) == Some(manifest));
        }
    }
}

/// A rung passes exactly where its file holds the manifest, its first auxiliary box is its first
/// Merkle box, it has one Merkle entry for each of its fragments, numbered from zero, of the
/// rendition that is numbered from one, and its first `sidx` box, if it has any, agrees with its
/// Merkle and `mdat` boxes.
pub proof fn law_rungs_pass_by_what_they_hold(
    bytes: Seq<u8>,
    boxes: FileBoxes,
    manifest: Seq<u8>,
    rung: nat,
    fragments: nat,
)
    ensures
        rung_verdict(bytes, boxes, manifest, rung, fragments) is Ok <==> {
            &&& boxes.manifest_bytes matches Some(b)
            &&& b@ == manifest
            &&& boxes.bmff_merkle_box_infos@.len() > 0
            &&& boxes.bmff_merkle_box_infos@[0].offset == boxes.first_aux_uuid_offset
            &&& boxes.bmff_merkle@.len() == fragments
            &&& forall|k: int|
                0 <= k < fragments ==> {
                    &&& (#[trigger] boxes.bmff_merkle@[k]).unique_id == rung + 1
                    &&& boxes.bmff_merkle@[k].local_id == 1
                    &&& boxes.bmff_merkle@[k].location == k
                }
            &&& is_indexed(bytes, boxes)
        },
{
}

/// A file without a `sidx` box has no index that could disagree; in one that has any, the first
/// is the one that must agree, with the file's Merkle boxes and its `mdat` boxes.
pub proof fn law_first_index_decides(bytes: Seq<u8>, boxes: FileBoxes, first: int)
    ensures
        (forall|k: int|
            0 <= k < boxes.box_infos@.len() ==> (#[trigger] boxes.box_infos@[k]).path@
                != "sidx"@) ==> is_indexed(bytes, boxes),
        0 <= first < boxes.box_infos@.len() && boxes.box_infos@[first].path@ == "sidx"@ && (
        forall|k: int|
            0 <= k < first ==> (#[trigger] boxes.box_infos@[k]).path@ != "sidx"@) ==> (is_indexed(
            bytes,
            boxes,
        ) <==> index_agrees(
            bytes,
            boxes.box_infos@[first]@,
            spans(boxes.bmff_merkle_box_infos@),
            with_path(spans(boxes.box_infos@), "mdat"@),
        )),
{
    let all = spans(boxes.box_infos@);
    law_spans_are_the_boxes(boxes.box_infos@);
    law_first_box_with_a_path(all, "sidx"@, first);
    if forall|k: int|
        0 <= k < boxes.box_infos@.len() ==> (#[trigger] boxes.box_infos@[k]).path@ != "sidx"@ {
        assert forall|k: int| 0 <= k < all.len() implies (#[trigger] all[k]).path != "sidx"@ by {
            assert(all[k].path == boxes.box_infos@[k].path@);
        }
    }
    if 0 <= first < all.len() && boxes.box_infos@[first].path@ == "sidx"@ && (forall|k: int|
        0 <= k < first ==> (#[trigger] boxes.box_infos@[k]).path@ != "sidx"@) {
        assert(all[first] == boxes.box_infos@[first]@);
        assert forall|k: int| 0 <= k < first implies (#[trigger] all[k]).path != "sidx"@ by {
            assert(all[k].path == boxes.box_infos@[k].path@);
        }
    }
}

/// The fault of a rung is the first thing that is wrong with it, in the order manifest, auxiliary
/// offset, fragment count, index, numbering.
pub proof fn law_rung_faults_name_what_is_wrong(
    bytes: Seq<u8>,
    boxes: FileBoxes,
    manifest: Seq<u8>,
    rung: nat,
    fragments: nat,
)
    ensures
        ({
            let verdict = rung_verdict(bytes, boxes, manifest, rung, fragments);
            let holds = boxes.manifest_bytes matches Some(b) && b@ == manifest;
            let starts = boxes.bmff_merkle_box_infos@.len() > 0
                && boxes.bmff_merkle_box_infos@[0].offset == boxes.first_aux_uuid_offset;
            let counts = boxes.bmff_merkle@.len() == fragments;
            &&& verdict == Err::<(), RungFault>(RungFault::Manifest) <==> !holds
            &&& verdict == Err::<(), RungFault>(RungFault::AuxiliaryOffset) <==> holds && !starts
            &&& verdict == Err::<(), RungFault>(RungFault::FragmentCount) <==> holds && starts
                && !counts
            &&& verdict == Err::<(), RungFault>(RungFault::Index) <==> holds && starts && counts
                && !is_indexed(bytes, boxes)
            &&& verdict == Err::<(), RungFault>(RungFault::Numbering) <==> holds && starts
                && counts && is_indexed(bytes, boxes) && exists|k: int|
                0 <= k < fragments && {
                    ||| (#[trigger] boxes.bmff_merkle@[k]).unique_id != rung + 1
                    ||| boxes.bmff_merkle@[k].local_id != 1
                    ||| boxes.bmff_merkle@[k].location != k
                }
        }),
{
}

/// A file has the number of its rung by its first Merkle entry alone, however many it has, if it
/// holds the manifest and there is a map for each rung.
pub proof fn law_rung_number_is_that_of_the_first_entry(
    boxes: FileBoxes,
    hash: BmffHash,
    manifest: Seq<u8>,
    rung: nat,
    rungs: nat,
)
    ensures
        is_rung_of(boxes, hash, manifest, rung, rungs) <==> {
            &&& boxes.manifest_bytes matches Some(b)
            &&& b@ == manifest
            &&& boxes.bmff_merkle@.len() > 0
            &&& boxes.bmff_merkle@[0].unique_id == rung + 1
            &&& hash.merkle matches Some(maps)
            &&& maps@.len() == rungs
        },
{
    law_binding_model_holds_the_binding(hash);
}

/// Where `verify` goes by contents alone, what it can say of contents is what it says of them: for
/// no contents can it say both that they pass and that they fail.
pub proof fn law_verification_by_contents_has_one_outcome<F: Fn(&BmffHash, &[u8]) -> bool>(
    verify: F,
    says: spec_fn(HashModel, Seq<u8>) -> bool,
    hash: HashModel,
    bytes: Seq<u8>,
    outcome: bool,
)
    requires
        forall|h: &BmffHash, b: &[u8], o: bool| #[trigger]
            verify.ensures((h, b), o) ==> o == says(h@, b@),
        can_judge(verify, hash, bytes, outcome),
    ensures
        outcome == says(hash, bytes),
{
}

/// What `verify` said of a binding and a file, it can say of their contents.
pub proof fn law_what_was_said_can_be_said<F: Fn(&BmffHash, &[u8]) -> bool>(
    verify: F,
    hash: &BmffHash,
    bytes: &[u8],
    outcome: bool,
)
    requires
        verify.ensures((hash, bytes), outcome),
    ensures
        can_judge(verify, hash@, bytes@, outcome),
{
}

/// A single rung must have a manifest box, as the file that was signed alone must, and the same
/// maps; and it does not matter which of the two files is named first.
pub proof fn law_single_rung_needs_boxes_and_maps(
    a: Seq<u8>,
    a_boxes: FileBoxes,
    a_hash: BmffHash,
    b: Seq<u8>,
    b_boxes: FileBoxes,
    b_hash: BmffHash,
)
    ensures
        differ_in_manifest_only(a, a_boxes, a_hash, b, b_boxes, b_hash) ==> {
            &&& a_hash@.merkle == b_hash@.merkle
            &&& has_manifest_box(a_boxes, a.len())
            &&& has_manifest_box(b_boxes, b.len())
        },
        differ_in_manifest_only(a, a_boxes, a_hash, b, b_boxes, b_hash)
            <==> differ_in_manifest_only(b, b_boxes, b_hash, a, a_boxes, a_hash),
{
}

} // verus!
