//! The boxes of a fragmented BMFF file, and the files that are cut out of or damaged in them.

use vstd::prelude::*;

use crate::bytes::{
    append_bytes, flip_byte, flipped, law_flip_inverts_the_lowest_bit,
    law_flip_is_visible_and_undone,
};
use crate::text::same_text;

verus! {

/// A box of a BMFF file: its path, where it starts and how many bytes it takes.
#[derive(Clone, Debug)]
pub struct BoxInfo {
    pub path: String,
    pub offset: u64,
    pub size: u64,
}

/// The model of a box.
pub ghost struct BoxSpan {
    pub path: Seq<char>,
    pub offset: int,
    pub size: int,
}

impl View for BoxInfo {
    type V = BoxSpan;

    open spec fn view(&self) -> BoxSpan {
        BoxSpan { path: self.path@, offset: self.offset as int, size: self.size as int }
    }
}

impl BoxSpan {
    /// The position just behind the box.
    pub open spec fn end(self) -> int {
        self.offset + self.size
    }
}

/// The Merkle entry that a file holds for one of its fragments.
#[derive(Clone, Copy, Debug, PartialEq, Eq, Structural)]
pub struct FragmentEntry {
    pub unique_id: usize,
    pub local_id: usize,
    pub location: usize,
}

/// What a scan of a BMFF file for boxes and provenance finds.
#[derive(Clone, Debug)]
pub struct FileBoxes {
    pub box_infos: Vec<BoxInfo>,
    pub manifest_bytes: Option<Vec<u8>>,
    pub manifest_box_offset: Option<u64>,
    pub manifest_box_bytes: Option<Vec<u8>>,
    pub first_aux_uuid_offset: u64,
    pub bmff_merkle: Vec<FragmentEntry>,
    pub bmff_merkle_box_infos: Vec<BoxInfo>,
}

/// The models of a list of boxes.
pub open spec fn spans(boxes: Seq<BoxInfo>) -> Seq<BoxSpan> {
    boxes.map_values(|b: BoxInfo| b@)
}

/// The predicate "has this path".
pub open spec fn has_path(path: Seq<char>) -> spec_fn(BoxSpan) -> bool {
    |b: BoxSpan| b.path == path
}

/// The boxes with the given path, in order.
pub open spec fn with_path(boxes: Seq<BoxSpan>, path: Seq<char>) -> Seq<BoxSpan> {
    boxes.filter(has_path(path))
}

/// How many fragments start among the boxes.
pub open spec fn fragment_count(boxes: Seq<BoxSpan>) -> nat {
    with_path(boxes, "moof"@).len()
}

/// The predicate "is no optional index".
pub open spec fn is_not_index() -> spec_fn(BoxSpan) -> bool {
    |b: BoxSpan| b.path != "sidx"@ && b.path != "mfra"@
}

/// The longest run of boxes from the front in which at most one fragment starts.
pub open spec fn through_first_fragment(boxes: Seq<BoxSpan>) -> Seq<BoxSpan>
    decreases boxes.len(),
{
    if boxes.len() == 0 || fragment_count(boxes) <= 1 {
        boxes
    } else {
        through_first_fragment(boxes.drop_last())
    }
}

/// The boxes that a shortened file is made of.
pub open spec fn kept_boxes(boxes: Seq<BoxSpan>) -> Seq<BoxSpan> {
    through_first_fragment(boxes).filter(is_not_index())
}

/// Whether the box lies inside a file of `len` bytes.
pub open spec fn fits(b: BoxSpan, len: nat) -> bool {
    0 <= b.offset <= b.end() <= len
}

/// The bytes of the boxes, one after the other.
pub open spec fn box_contents(data: Seq<u8>, boxes: Seq<BoxSpan>) -> Seq<u8>
    decreases boxes.len(),
{
    if boxes.len() == 0 {
        Seq::empty()
    } else {
        box_contents(data, boxes.drop_last()) + data.subrange(
            boxes.last().offset,
            boxes.last().end(),
        )
    }
}

/// Whether the shortened file can be cut out of `data`: every box that it keeps lies in it.
pub open spec fn can_shorten(data: Seq<u8>, boxes: Seq<BoxSpan>) -> bool {
    forall|k: int|
        0 <= k < kept_boxes(boxes).len() ==> fits(#[trigger] kept_boxes(boxes)[k], data.len())
}

/// Reassembles a file up to the end of its first fragment, without its optional indexes, so
/// that files with unequal fragment counts can be had without making up media or leaving
/// invalid index entries behind.
pub fn shortened(data: &[u8], boxes: &Vec<BoxInfo>) -> (output: Vec<u8>)
    requires
        can_shorten(data@, spans(boxes@)),
    ensures
        output@ == box_contents(data@, kept_boxes(spans(boxes@))),
{
    let ghost all = spans(boxes@);
    let len: usize = data.len();
    let mut output: Vec<u8> = Vec::new();
    let mut fragments: usize = 0;
    let mut i: usize = 0;
    proof {
        reveal(Seq::filter);
        assert(all.take(0) =~= Seq::<BoxSpan>::empty());
    }
    while i < boxes.len()
        invariant
            all == spans(boxes@),
            len == data@.len(),
            can_shorten(data@, all),
            i <= boxes@.len(),
            fragments <= 1,
            fragments == fragment_count(all.take(i as int)),
            output@ == box_contents(data@, all.take(i as int).filter(is_not_index())),
        decreases boxes@.len() - i,
    {
        let ghost head = all.take(i as int);
        let ghost next = all.take(i + 1);
        proof {
            reveal(Seq::filter);
            assert(next.drop_last() =~= head);
            assert(next.last() == boxes@[i as int]@);
        }
        let path = boxes[i].path.as_str();
        if same_text(path, "moof") {
            fragments += 1;
        }
        assert(fragments == fragment_count(next));
        if fragments > 1 {
            proof {
                lemma_cut(all, i as int);
            }
            return output;
        }
        if !same_text(path, "sidx") && !same_text(path, "mfra") {
            proof {
                lemma_kept_so_far(all, i as int);
                assert(all[i as int] == boxes@[i as int]@);
                assert(fits(boxes@[i as int]@, data@.len()));
            }
            let start = boxes[i].offset as usize;
            let end = (boxes[i].offset + boxes[i].size) as usize;
            append_bytes(&mut output, vstd::slice::slice_subrange(data, start, end));
            let ghost kept = next.filter(is_not_index());
            assert(kept.drop_last() =~= head.filter(is_not_index()));
        }
        i += 1;
    }
    assert(all.take(i as int) =~= all);
    output
}

/// A fragment count never falls when boxes follow.
proof fn lemma_fragment_count_grows(boxes: Seq<BoxSpan>, n: int)
    requires
        0 <= n <= boxes.len(),
    ensures
        fragment_count(boxes.take(n)) <= fragment_count(boxes),
    decreases boxes.len(),
{
    reveal(Seq::filter);
    if n == boxes.len() {
        assert(boxes.take(n) =~= boxes);
    } else {
        assert(boxes.drop_last().take(n) =~= boxes.take(n));
        lemma_fragment_count_grows(boxes.drop_last(), n);
    }
}

/// The second fragment start ends the run of boxes that is kept.
proof fn lemma_cut(boxes: Seq<BoxSpan>, n: int)
    requires
        0 <= n < boxes.len(),
        fragment_count(boxes.take(n)) <= 1,
        fragment_count(boxes.take(n + 1)) > 1,
    ensures
        through_first_fragment(boxes) == boxes.take(n),
    decreases boxes.len(),
{
    reveal_with_fuel(through_first_fragment, 2);
    lemma_fragment_count_grows(boxes, n + 1);
    if n + 1 == boxes.len() {
        assert(boxes.take(n + 1) =~= boxes);
        assert(boxes.drop_last() =~= boxes.take(n));
    } else {
        assert(boxes.drop_last().take(n) =~= boxes.take(n));
        assert(boxes.drop_last().take(n + 1) =~= boxes.take(n + 1));
        lemma_cut(boxes.drop_last(), n);
    }
}

/// A box that is no index, with at most one fragment start up to and with it, is kept.
proof fn lemma_kept_so_far(boxes: Seq<BoxSpan>, n: int)
    requires
        0 <= n < boxes.len(),
        fragment_count(boxes.take(n + 1)) <= 1,
        is_not_index()(boxes[n]),
    ensures
        exists|k: int|
            0 <= k < kept_boxes(boxes).len() && #[trigger] kept_boxes(boxes)[k] == boxes[n],
{
    lemma_run_is_a_prefix(boxes, n + 1);
    let run = through_first_fragment(boxes);
    assert(run[n] == boxes[n]) by {
        assert(run.take(n + 1)[n] == boxes.take(n + 1)[n]);
    }
    run.lemma_filter_contains(is_not_index(), n);
    let k = choose|k: int|
        0 <= k < kept_boxes(boxes).len() && kept_boxes(boxes)[k] == run[n];
    assert(kept_boxes(boxes)[k] == boxes[n]);
}

/// A run of boxes from the front with at most one fragment start is part of the longest such.
proof fn lemma_run_is_a_prefix(boxes: Seq<BoxSpan>, n: int)
    requires
        0 <= n <= boxes.len(),
        fragment_count(boxes.take(n)) <= 1,
    ensures
        n <= through_first_fragment(boxes).len() <= boxes.len(),
        through_first_fragment(boxes).take(n) == boxes.take(n),
    decreases boxes.len(),
{
    if boxes.len() == 0 || fragment_count(boxes) <= 1 {
    } else {
        assert(n < boxes.len()) by {
            if n == boxes.len() {
                assert(boxes.take(n) =~= boxes);
            }
        }
        assert(boxes.drop_last().take(n) =~= boxes.take(n));
        lemma_run_is_a_prefix(boxes.drop_last(), n);
    }
}

/// Whether every box that the shortened file keeps lies in `data`.
pub fn can_be_shortened(data: &[u8], boxes: &Vec<BoxInfo>) -> (possible: bool)
    ensures
        possible == can_shorten(data@, spans(boxes@)),
{
    let ghost all = spans(boxes@);
    let len: usize = data.len();
    let mut fragments: usize = 0;
    let mut i: usize = 0;
    proof {
        reveal(Seq::filter);
        assert(all.take(0) =~= Seq::<BoxSpan>::empty());
    }
    while i < boxes.len()
        invariant
            all == spans(boxes@),
            len == data@.len(),
            i <= boxes@.len(),
            fragments <= 1,
            fragments == fragment_count(all.take(i as int)),
            forall|k: int|
                0 <= k < all.take(i as int).filter(is_not_index()).len() ==> fits(
                    #[trigger] all.take(i as int).filter(is_not_index())[k],
                    data@.len(),
                ),
        decreases boxes@.len() - i,
    {
        let ghost head = all.take(i as int);
        let ghost next = all.take(i + 1);
        proof {
            reveal(Seq::filter);
            assert(next.drop_last() =~= head);
            assert(next.last() == boxes@[i as int]@);
        }
        let path = boxes[i].path.as_str();
        if same_text(path, "moof") {
            fragments += 1;
        }
        assert(fragments == fragment_count(next));
        if fragments > 1 {
            proof {
                lemma_cut(all, i as int);
            }
            return true;
        }
        if !same_text(path, "sidx") && !same_text(path, "mfra") {
            proof {
                lemma_kept_so_far(all, i as int);
                assert(all[i as int] == boxes@[i as int]@);
            }
            let start: u128 = boxes[i].offset as u128;
            if start + boxes[i].size as u128 > len as u128 {
                return false;
            }
            let ghost before = head.filter(is_not_index());
            let ghost kept = next.filter(is_not_index());
            assert forall|k: int| 0 <= k < kept.len() implies fits(
                #[trigger] kept[k],
                data@.len(),
            ) by {
                if k < before.len() {
                    assert(kept[k] == before[k]);
                }
            }
        }
        i += 1;
    }
    assert(all.take(i as int) =~= all);
    true
}

/// The position of the first box with the given path.
pub fn first_with_path(boxes: &Vec<BoxInfo>, path: &str) -> (found: Option<usize>)
    ensures
        match found {
            Some(i) => i < boxes@.len() && with_path(spans(boxes@), path@).len() > 0
                && boxes@[i as int]@ == with_path(spans(boxes@), path@)[0],
            None => with_path(spans(boxes@), path@).len() == 0,
        },
        match found {
            Some(i) => boxes@[i as int].path@ == path@ && forall|k: int|
                0 <= k < i ==> (#[trigger] boxes@[k]).path@ != path@,
            None => forall|k: int| 0 <= k < boxes@.len() ==> (#[trigger] boxes@[k]).path@ != path@,
        },
{
    let ghost all = spans(boxes@);
    let mut i: usize = 0;
    proof {
        reveal(Seq::filter);
        assert(all.take(0) =~= Seq::<BoxSpan>::empty());
    }
    while i < boxes.len()
        invariant
            all == spans(boxes@),
            i <= boxes@.len(),
            with_path(all.take(i as int), path@).len() == 0,
            forall|k: int| 0 <= k < i ==> (#[trigger] boxes@[k]).path@ != path@,
        decreases boxes@.len() - i,
    {
        proof {
            reveal(Seq::filter);
            assert(all.take(i + 1).drop_last() =~= all.take(i as int));
            assert(all.take(i + 1).last() == boxes@[i as int]@);
        }
        if same_text(boxes[i].path.as_str(), path) {
            proof {
                lemma_front_selects_first(all, i + 1, path@);
            }
            return Some(i);
        }
        i += 1;
    }
    assert(all.take(i as int) =~= all);
    None
}

/// The boxes that a path selects in the front of a list are the first that it selects in all.
pub proof fn lemma_front_selects_first(boxes: Seq<BoxSpan>, n: int, path: Seq<char>)
    requires
        0 <= n <= boxes.len(),
    ensures
        with_path(boxes.take(n), path).len() <= with_path(boxes, path).len(),
        forall|k: int|
            0 <= k < with_path(boxes.take(n), path).len() ==> #[trigger] with_path(boxes, path)[k]
                == with_path(boxes.take(n), path)[k],
    decreases boxes.len(),
{
    reveal(Seq::filter);
    if n == boxes.len() {
        assert(boxes.take(n) =~= boxes);
    } else {
        assert(boxes.drop_last().take(n) =~= boxes.take(n));
        lemma_front_selects_first(boxes.drop_last(), n, path);
    }
}

/// Where the last byte of the first media data box lies.
pub open spec fn media_byte(boxes: Seq<BoxSpan>) -> int {
    with_path(boxes, "mdat"@)[0].end() - 1
}

/// Whether the file has media data whose last byte lies in it.
pub open spec fn has_media_byte(boxes: Seq<BoxSpan>, len: nat) -> bool {
    with_path(boxes, "mdat"@).len() > 0 && 0 <= media_byte(boxes) < len
}

/// Damages a file's media: inverts the lowest bit of the last byte of its first `mdat` box.
pub fn tamper_media(bytes: &mut Vec<u8>, boxes: &FileBoxes)
    requires
        has_media_byte(spans(boxes.box_infos@), old(bytes)@.len()),
    ensures
        final(bytes)@ == flipped(old(bytes)@, media_byte(spans(boxes.box_infos@))),
{
    let len: usize = bytes.len();
    if let Some(i) = first_with_path(&boxes.box_infos, "mdat") {
        let mdat = &boxes.box_infos[i];
        assert(mdat@.end() <= len);
        let end: u64 = mdat.offset + mdat.size;
        flip_byte(bytes, (end - 1) as usize);
    }
}

/// A range of bytes: the position of its first byte and the one behind its last.
pub ghost struct ByteRange {
    pub start: int,
    pub end: int,
}

/// Where the manifest box lies.
pub open spec fn manifest_range(boxes: FileBoxes) -> Option<ByteRange> {
    match (boxes.manifest_box_offset, boxes.manifest_box_bytes) {
        (Some(at), Some(b)) => Some(ByteRange { start: at as int, end: at + b@.len() }),
        _ => None,
    }
}

/// Whether the file has a manifest box that lies in it.
pub open spec fn has_manifest_box(boxes: FileBoxes, len: nat) -> bool {
    manifest_range(boxes) matches Some(r) && r.end <= len
}

/// Where the manifest box of a file of `len` bytes lies, if it has one that lies in it.
pub fn find_manifest_box(boxes: &FileBoxes, len: usize) -> (range: Option<(usize, usize)>)
    ensures
        range is Some <==> has_manifest_box(*boxes, len as nat),
        range matches Some(r) ==> manifest_range(*boxes) == Some(
            (ByteRange { start: r.0 as int, end: r.1 as int }),
        ),
{
    match (&boxes.manifest_box_offset, &boxes.manifest_box_bytes) {
        (Some(at), Some(b)) => {
            let n: usize = b.len();
            if *at as u128 + n as u128 <= len as u128 {
                Some((*at as usize, *at as usize + n))
            } else {
                None
            }
        },
        _ => None,
    }
}

/// The file without its manifest box: what stands before the box, and what stands behind it.
pub fn strip(bytes: &[u8], boxes: &FileBoxes) -> (parts: (Vec<u8>, Vec<u8>))
    requires
        has_manifest_box(*boxes, bytes@.len()),
    ensures
        parts.0@ == bytes@.take(manifest_range(*boxes).unwrap().start),
        parts.1@ == bytes@.skip(manifest_range(*boxes).unwrap().end),
{
    let len: usize = bytes.len();
    let mut before: Vec<u8> = Vec::new();
    let mut behind: Vec<u8> = Vec::new();
    if let Some((at, end)) = find_manifest_box(boxes, len) {
        append_bytes(&mut before, vstd::slice::slice_subrange(bytes, 0, at));
        append_bytes(&mut behind, vstd::slice::slice_subrange(bytes, end, len));
    }
    (before, behind)
}

/// Damages a placeholder: inverts the lowest bit of the last byte of the manifest box.
pub fn damage_manifest(bytes: &mut Vec<u8>, boxes: &FileBoxes)
    requires
        has_manifest_box(*boxes, old(bytes)@.len()),
        manifest_range(*boxes).unwrap().end > 0,
    ensures
        final(bytes)@ == flipped(old(bytes)@, manifest_range(*boxes).unwrap().end - 1),
{
    let len: usize = bytes.len();
    if let Some((_at, end)) = find_manifest_box(boxes, len) {
        flip_byte(bytes, end - 1);
    }
}

/// Tampering with media changes one byte of the first media data box, and nothing outside it.
pub proof fn law_tampering_stays_in_the_media(bytes: Seq<u8>, boxes: Seq<BoxSpan>)
    requires
        has_media_byte(boxes, bytes.len()),
        with_path(boxes, "mdat"@)[0].size > 0,
    ensures
        ({
            let mdat = with_path(boxes, "mdat"@)[0];
            let tampered = flipped(bytes, media_byte(boxes));
            &&& mdat.offset <= media_byte(boxes) < mdat.end()
            &&& tampered != bytes
            &&& tampered.len() == bytes.len()
            &&& forall|k: int|
                0 <= k < bytes.len() && !(mdat.offset <= k < mdat.end()) ==> #[trigger] tampered[k]
                    == bytes[k]
        }),
{
    law_flip_is_visible_and_undone(bytes, media_byte(boxes));
}

/// Damage to the manifest box changes the file, but not what is left when the box is stripped.
pub proof fn law_damage_stays_in_the_manifest_box(bytes: Seq<u8>, boxes: FileBoxes)
    requires
        has_manifest_box(boxes, bytes.len()),
        manifest_range(boxes).unwrap().start < manifest_range(boxes).unwrap().end,
    ensures
        ({
            let range = manifest_range(boxes).unwrap();
            let damaged = flipped(bytes, range.end - 1);
            &&& damaged != bytes
            &&& damaged.take(range.start) == bytes.take(range.start)
            &&& damaged.skip(range.end) == bytes.skip(range.end)
        }),
{
    let range = manifest_range(boxes).unwrap();
    let damaged = flipped(bytes, range.end - 1);
    law_flip_is_visible_and_undone(bytes, range.end - 1);
    assert(damaged.take(range.start) =~= bytes.take(range.start));
    assert(damaged.skip(range.end) =~= bytes.skip(range.end));
}

/// How many bytes the boxes take together.
pub open spec fn total_size(boxes: Seq<BoxSpan>) -> int
    decreases boxes.len(),
{
    if boxes.len() == 0 {
        0
    } else {
        total_size(boxes.drop_last()) + boxes.last().size
    }
}

/// The same boxes, laid out one behind the other from the start of a file.
pub open spec fn laid_out(boxes: Seq<BoxSpan>) -> Seq<BoxSpan> {
    Seq::new(
        boxes.len(),
        |k: int| BoxSpan {
            path: boxes[k].path,
            offset: total_size(boxes.take(k)),
            size: boxes[k].size,
        },
    )
}

/// Whether the boxes fill a file of `len` bytes from its start, without gaps or overlaps.
pub open spec fn tiles(boxes: Seq<BoxSpan>, len: nat) -> bool {
    &&& forall|k: int| 0 <= k < boxes.len() ==> (#[trigger] boxes[k]).size >= 0
    &&& boxes == laid_out(boxes)
    &&& total_size(boxes) == len
}

/// A shortened file keeps one fragment where there was any, and no optional index.
pub proof fn law_shortened_keeps_one_fragment(boxes: Seq<BoxSpan>)
    ensures
        fragment_count(kept_boxes(boxes)) == if fragment_count(boxes) == 0 {
            0nat
        } else {
            1nat
        },
        forall|k: int|
            0 <= k < kept_boxes(boxes).len() ==> {
                &&& (#[trigger] kept_boxes(boxes)[k]).path != "sidx"@
                &&& kept_boxes(boxes)[k].path != "mfra"@
            },
{
    lemma_run_has_one_fragment(boxes);
    let run = through_first_fragment(boxes);
    lemma_dropping_indexes_keeps_fragments(run);
    assert forall|k: int| 0 <= k < kept_boxes(boxes).len() implies {
        &&& (#[trigger] kept_boxes(boxes)[k]).path != "sidx"@
        &&& kept_boxes(boxes)[k].path != "mfra"@
    } by {
        run.lemma_filter_pred(is_not_index(), k);
    }
}

/// Shortening leaves a file alone that has no index and at most one fragment.
pub proof fn law_short_file_is_left_alone(data: Seq<u8>, boxes: Seq<BoxSpan>)
    requires
        tiles(boxes, data.len()),
        fragment_count(boxes) <= 1,
        forall|k: int|
            0 <= k < boxes.len() ==> (#[trigger] boxes[k]).path != "sidx"@ && boxes[k].path
                != "mfra"@,
    ensures
        kept_boxes(boxes) == boxes,
        can_shorten(data, boxes),
        box_contents(data, boxes) == data,
{
    assert forall|k: int| 0 <= k < boxes.len() implies is_not_index()(#[trigger] boxes[k]) by {}
    lemma_filter_keeps_all(boxes, is_not_index());
    lemma_tiled_contents(data, boxes, boxes.len() as int);
    assert(boxes.take(boxes.len() as int) =~= boxes);
    assert(data.take(data.len() as int) =~= data);
    assert forall|k: int| 0 <= k < boxes.len() implies fits(#[trigger] boxes[k], data.len()) by {
        lemma_tiled_contents(data, boxes, k);
        lemma_tiled_contents(data, boxes, k + 1);
        assert(boxes.take(k + 1).drop_last() =~= boxes.take(k));
        assert(boxes[k] == laid_out(boxes)[k]);
    }
}

/// Shortening a shortened file, with its boxes where they now lie, changes nothing.
pub proof fn law_shortening_twice_is_shortening_once(data: Seq<u8>, boxes: Seq<BoxSpan>)
    requires
        can_shorten(data, boxes),
    ensures
        ({
            let output = box_contents(data, kept_boxes(boxes));
            let again = laid_out(kept_boxes(boxes));
            &&& tiles(again, output.len())
            &&& can_shorten(output, again)
            &&& box_contents(output, kept_boxes(again)) == output
        }),
{
    let kept = kept_boxes(boxes);
    let output = box_contents(data, kept);
    let again = laid_out(kept);
    law_shortened_keeps_one_fragment(boxes);
    assert forall|k: int| 0 <= k < kept.len() implies (#[trigger] kept[k]).size >= 0 by {
        assert(fits(kept_boxes(boxes)[k], data.len()));
    }
    lemma_contents_length(data, kept);
    lemma_same_paths_same_count(kept, again);
    lemma_same_sizes_same_total(kept, again);
    assert forall|k: int| 0 <= k < again.len() implies again[k] == #[trigger] laid_out(again)[k] by {
        lemma_same_sizes_same_total(kept.take(k), again.take(k));
    }
    assert(again =~= laid_out(again));
    assert forall|k: int| 0 <= k < again.len() implies (#[trigger] again[k]).path != "sidx"@
        && again[k].path != "mfra"@ by {
        assert(again[k].path == kept_boxes(boxes)[k].path);
    }
    law_short_file_is_left_alone(output, again);
}

proof fn lemma_run_has_one_fragment(boxes: Seq<BoxSpan>)
    ensures
        fragment_count(through_first_fragment(boxes)) == if fragment_count(boxes) == 0 {
            0nat
        } else {
            1nat
        },
    decreases boxes.len(),
{
    reveal(Seq::filter);
    if boxes.len() > 0 && fragment_count(boxes) > 1 {
        lemma_run_has_one_fragment(boxes.drop_last());
    }
}

proof fn lemma_dropping_indexes_keeps_fragments(boxes: Seq<BoxSpan>)
    ensures
        fragment_count(boxes.filter(is_not_index())) == fragment_count(boxes),
    decreases boxes.len(),
{
    reveal(Seq::filter);
    reveal_strlit("moof");
    reveal_strlit("sidx");
    reveal_strlit("mfra");
    if boxes.len() > 0 {
        let before = boxes.drop_last().filter(is_not_index());
        lemma_dropping_indexes_keeps_fragments(boxes.drop_last());
        assert("moof"@[0] != "sidx"@[0]);
        assert("moof"@[1] != "mfra"@[1]);
        if is_not_index()(boxes.last()) {
            assert(before.push(boxes.last()).drop_last() =~= before);
        }
    }
}

proof fn lemma_filter_keeps_all(boxes: Seq<BoxSpan>, pred: spec_fn(BoxSpan) -> bool)
    requires
        forall|k: int| 0 <= k < boxes.len() ==> pred(#[trigger] boxes[k]),
    ensures
        boxes.filter(pred) == boxes,
    decreases boxes.len(),
{
    reveal(Seq::filter);
    if boxes.len() > 0 {
        assert forall|k: int| 0 <= k < boxes.drop_last().len() implies pred(
            #[trigger] boxes.drop_last()[k],
        ) by {
            assert(boxes.drop_last()[k] == boxes[k]);
        }
        lemma_filter_keeps_all(boxes.drop_last(), pred);
        assert(pred(boxes[boxes.len() - 1]));
        assert(boxes.drop_last().push(boxes.last()) =~= boxes);
    }
}

#[verifier::spinoff_prover]
proof fn lemma_tiled_contents(data: Seq<u8>, boxes: Seq<BoxSpan>, n: int)
    requires
        tiles(boxes, data.len()),
        0 <= n <= boxes.len(),
    ensures
        0 <= total_size(boxes.take(n)) <= data.len(),
        box_contents(data, boxes.take(n)) == data.take(total_size(boxes.take(n))),
    decreases n,
{
    lemma_total_grows(boxes, n);
    assert(boxes.take(boxes.len() as int) =~= boxes);
    if n == 0 {
        assert(data.take(0) =~= Seq::<u8>::empty());
    } else {
        let head = boxes.take(n);
        lemma_tiled_contents(data, boxes, n - 1);
        assert(head.drop_last() =~= boxes.take(n - 1));
        assert(head.last() == laid_out(boxes)[n - 1]);
        assert(boxes[n - 1].size >= 0);
        let from = total_size(boxes.take(n - 1));
        let to = total_size(head);
        assert(data.take(from) + data.subrange(from, to) =~= data.take(to));
    }
}

proof fn lemma_total_grows(boxes: Seq<BoxSpan>, n: int)
    requires
        forall|k: int| 0 <= k < boxes.len() ==> (#[trigger] boxes[k]).size >= 0,
        0 <= n <= boxes.len(),
    ensures
        0 <= total_size(boxes.take(n)) <= total_size(boxes),
    decreases boxes.len(),
{
    if n < boxes.len() {
        let rest = boxes.drop_last();
        assert forall|k: int| 0 <= k < rest.len() implies (#[trigger] rest[k]).size >= 0 by {
            assert(rest[k] == boxes[k]);
        }
        assert(rest.take(n) =~= boxes.take(n));
        lemma_total_grows(rest, n);
        assert(boxes[boxes.len() - 1].size >= 0);
    } else if n > 0 {
        assert(boxes.take(n) =~= boxes);
        let rest = boxes.drop_last();
        assert forall|k: int| 0 <= k < rest.len() implies (#[trigger] rest[k]).size >= 0 by {
            assert(rest[k] == boxes[k]);
        }
        assert(rest.take(rest.len() as int) =~= rest);
        lemma_total_grows(rest, rest.len() as int);
        assert(boxes[boxes.len() - 1].size >= 0);
    } else {
        assert(boxes.take(n) =~= boxes);
    }
}

proof fn lemma_contents_length(data: Seq<u8>, boxes: Seq<BoxSpan>)
    requires
        forall|k: int| 0 <= k < boxes.len() ==> fits(#[trigger] boxes[k], data.len()),
    ensures
        box_contents(data, boxes).len() == total_size(boxes),
    decreases boxes.len(),
{
    if boxes.len() > 0 {
        let rest = boxes.drop_last();
        assert forall|k: int| 0 <= k < rest.len() implies fits(#[trigger] rest[k], data.len()) by {
            assert(rest[k] == boxes[k]);
        }
        lemma_contents_length(data, rest);
        assert(fits(boxes[boxes.len() - 1], data.len()));
    }
}

proof fn lemma_same_paths_same_count(a: Seq<BoxSpan>, b: Seq<BoxSpan>)
    requires
        a.len() == b.len(),
        forall|k: int| 0 <= k < a.len() ==> (#[trigger] a[k]).path == (#[trigger] b[k]).path,
    ensures
        fragment_count(a) == fragment_count(b),
    decreases a.len(),
{
    reveal(Seq::filter);
    if a.len() > 0 {
        assert(a[a.len() - 1].path == b[b.len() - 1].path);
        lemma_same_paths_same_count(a.drop_last(), b.drop_last());
    }
}

proof fn lemma_same_sizes_same_total(a: Seq<BoxSpan>, b: Seq<BoxSpan>)
    requires
        a.len() == b.len(),
        forall|k: int| 0 <= k < a.len() ==> (#[trigger] a[k]).size == (#[trigger] b[k]).size,
    ensures
        total_size(a) == total_size(b),
    decreases a.len(),
{
    if a.len() > 0 {
        assert(a[a.len() - 1].size == b[b.len() - 1].size);
        lemma_same_sizes_same_total(a.drop_last(), b.drop_last());
    }
}

/// The models of boxes are these boxes, one for one: with their paths, and from their offsets for
/// their full sizes.
pub proof fn law_spans_are_the_boxes(boxes: Seq<BoxInfo>)
    ensures
        spans(boxes).len() == boxes.len(),
        forall|k: int|
            0 <= k < boxes.len() ==> {
                &&& (#[trigger] spans(boxes)[k]).path == boxes[k].path@
                &&& spans(boxes)[k].offset == boxes[k].offset
                &&& spans(boxes)[k].size == boxes[k].size
                &&& spans(boxes)[k].end() == boxes[k].offset + boxes[k].size
            },
{
}

/// A path selects the boxes that have it, every one of them, in their order, and no other.
pub proof fn law_paths_select_in_order(boxes: Seq<BoxSpan>, next: BoxSpan, path: Seq<char>)
    ensures
        with_path(Seq::empty(), path) == Seq::<BoxSpan>::empty(),
        next.path == path ==> with_path(boxes.push(next), path) == with_path(boxes, path).push(
            next,
        ),
        next.path != path ==> with_path(boxes.push(next), path) == with_path(boxes, path),
{
    reveal(Seq::filter);
    assert(boxes.push(next).drop_last() =~= boxes);
}

/// A path selects nothing exactly where no box has it; and what it selects first is the first box
/// that has it.
pub proof fn law_first_box_with_a_path(boxes: Seq<BoxSpan>, path: Seq<char>, first: int)
    ensures
        with_path(boxes, path).len() == 0 <==> forall|k: int|
            0 <= k < boxes.len() ==> (#[trigger] boxes[k]).path != path,
        0 <= first < boxes.len() && boxes[first].path == path && (forall|k: int|
            0 <= k < first ==> (#[trigger] boxes[k]).path != path) ==> with_path(boxes, path).len()
            > 0 && with_path(boxes, path)[0] == boxes[first],
{
    lemma_nothing_selected(boxes, path);
    if 0 <= first < boxes.len() && boxes[first].path == path && (forall|k: int|
        0 <= k < first ==> (#[trigger] boxes[k]).path != path) {
        let front = boxes.take(first);
        lemma_nothing_selected(front, path);
        law_paths_select_in_order(front, boxes[first], path);
        assert(boxes.take(first + 1) =~= front.push(boxes[first]));
        lemma_front_selects_first(boxes, first + 1, path);
    }
}

proof fn lemma_nothing_selected(boxes: Seq<BoxSpan>, path: Seq<char>)
    ensures
        with_path(boxes, path).len() == 0 <==> forall|k: int|
            0 <= k < boxes.len() ==> (#[trigger] boxes[k]).path != path,
    decreases boxes.len(),
{
    reveal(Seq::filter);
    if boxes.len() > 0 {
        let rest = boxes.drop_last();
        lemma_nothing_selected(rest, path);
        if with_path(boxes, path).len() == 0 {
            assert forall|k: int| 0 <= k < boxes.len() implies (#[trigger] boxes[k]).path
                != path by {
                if k < rest.len() {
                    assert(rest[k] == boxes[k]);
                }
            }
        }
        if forall|k: int| 0 <= k < boxes.len() ==> (#[trigger] boxes[k]).path != path {
            assert forall|k: int| 0 <= k < rest.len() implies (#[trigger] rest[k]).path != path by {
                assert(rest[k] == boxes[k]);
            }
            assert(boxes[boxes.len() - 1].path != path);
        }
    }
}

/// Every `moof` box starts a fragment, and no other box does.
pub proof fn law_fragments_start_with_moof(boxes: Seq<BoxSpan>, next: BoxSpan)
    ensures
        fragment_count(Seq::empty()) == 0,
        next.path == "moof"@ ==> fragment_count(boxes.push(next)) == fragment_count(boxes) + 1,
        next.path != "moof"@ ==> fragment_count(boxes.push(next)) == fragment_count(boxes),
{
    law_paths_select_in_order(boxes, next, "moof"@);
}

/// A shortened file ends before the second `moof` box: what stands there and behind counts for
/// nothing.
pub proof fn law_shortening_cuts_before_the_second_fragment(
    boxes: Seq<BoxSpan>,
    first: int,
    second: int,
)
    requires
        0 <= first < second < boxes.len(),
        boxes[first].path == "moof"@,
        boxes[second].path == "moof"@,
        forall|k: int|
            0 <= k < second && k != first ==> (#[trigger] boxes[k]).path != "moof"@,
    ensures
        kept_boxes(boxes) == kept_boxes(boxes.take(second)),
{
    let front = boxes.take(second);
    let through = boxes.take(second + 1);
    assert forall|j: int, k: int| 0 <= j < k < front.len() implies !((#[trigger] front[j]).path
        == "moof"@ && (#[trigger] front[k]).path == "moof"@) by {
        assert(front[j] == boxes[j] && front[k] == boxes[k]);
    }
    lemma_at_most_one_fragment(front);
    assert(through =~= front.push(boxes[second]));
    law_fragments_start_with_moof(front, boxes[second]);
    assert(fragment_count(front) > 0) by {
        lemma_nothing_selected(front, "moof"@);
        assert(front[first].path == "moof"@);
    }
    lemma_cut(boxes, second);
    assert(through_first_fragment(front) == front);
}

/// As long as no second `moof` box has come, every box is kept, in its place and with all its
/// bytes, but for `sidx` and `mfra` boxes, wherever they stand.
pub proof fn law_shortening_drops_indexes_only(data: Seq<u8>, boxes: Seq<BoxSpan>, next: BoxSpan)
    requires
        forall|j: int, k: int|
            0 <= j < k < boxes.push(next).len() ==> !((#[trigger] boxes.push(next)[j]).path
                == "moof"@ && (#[trigger] boxes.push(next)[k]).path == "moof"@),
    ensures
        kept_boxes(Seq::empty()) == Seq::<BoxSpan>::empty(),
        next.path == "sidx"@ || next.path == "mfra"@ ==> kept_boxes(boxes.push(next))
            == kept_boxes(boxes),
        next.path != "sidx"@ && next.path != "mfra"@ ==> {
            &&& kept_boxes(boxes.push(next)) == kept_boxes(boxes).push(next)
            &&& box_contents(data, kept_boxes(boxes.push(next))) == box_contents(
                data,
                kept_boxes(boxes),
            ) + data.subrange(next.offset, next.offset + next.size)
        },
        box_contents(data, Seq::empty()) == Seq::<u8>::empty(),
{
    reveal(Seq::filter);
    let all = boxes.push(next);
    lemma_at_most_one_fragment(all);
    law_fragments_start_with_moof(boxes, next);
    assert(through_first_fragment(all) == all);
    assert(through_first_fragment(boxes) == boxes);
    assert(all.drop_last() =~= boxes);
    let kept = kept_boxes(boxes);
    assert(kept.push(next).drop_last() =~= kept);
}

/// A file can be shortened exactly where each box that is kept starts and ends in it.
pub proof fn law_shortening_needs_its_boxes_only(data: Seq<u8>, boxes: Seq<BoxSpan>)
    ensures
        can_shorten(data, boxes) <==> forall|k: int|
            0 <= k < kept_boxes(boxes).len() ==> {
                let kept = #[trigger] kept_boxes(boxes)[k];
                0 <= kept.offset && 0 <= kept.size && kept.offset + kept.size <= data.len()
            },
{
    if can_shorten(data, boxes) {
        assert forall|k: int| 0 <= k < kept_boxes(boxes).len() implies {
            let kept = #[trigger] kept_boxes(boxes)[k];
            0 <= kept.offset && 0 <= kept.size && kept.offset + kept.size <= data.len()
        } by {
            assert(fits(kept_boxes(boxes)[k], data.len()));
        }
    }
}

proof fn lemma_at_most_one_fragment(boxes: Seq<BoxSpan>)
    requires
        forall|j: int, k: int|
            0 <= j < k < boxes.len() ==> !((#[trigger] boxes[j]).path == "moof"@ && (
            #[trigger] boxes[k]).path == "moof"@),
    ensures
        fragment_count(boxes) <= 1,
    decreases boxes.len(),
{
    if boxes.len() > 0 {
        let rest = boxes.drop_last();
        let last = boxes.last();
        assert(boxes =~= rest.push(last));
        law_fragments_start_with_moof(rest, last);
        if last.path == "moof"@ {
            assert forall|k: int| 0 <= k < rest.len() implies (#[trigger] rest[k]).path
                != "moof"@ by {
                assert(rest[k] == boxes[k]);
                assert(boxes[boxes.len() - 1].path == "moof"@);
            }
            lemma_nothing_selected(rest, "moof"@);
        } else {
            assert forall|j: int, k: int| 0 <= j < k < rest.len() implies !((
            #[trigger] rest[j]).path == "moof"@ && (#[trigger] rest[k]).path == "moof"@) by {
                assert(rest[j] == boxes[j] && rest[k] == boxes[k]);
            }
            lemma_at_most_one_fragment(rest);
        }
    } else {
        law_fragments_start_with_moof(boxes, arbitrary());
        assert(boxes =~= Seq::<BoxSpan>::empty());
    }
}

/// Tampering goes for the last byte of the first `mdat` box, whatever stands before or behind that
/// box, and inverts its lowest bit; it can be done where that byte is in the file.
pub proof fn law_tampering_hits_the_last_media_byte(
    bytes: Seq<u8>,
    boxes: Seq<BoxSpan>,
    first: int,
)
    requires
        0 <= first < boxes.len(),
        boxes[first].path == "mdat"@,
        forall|k: int| 0 <= k < first ==> (#[trigger] boxes[k]).path != "mdat"@,
    ensures
        ({
            let at = boxes[first].offset + boxes[first].size - 1;
            let tampered = flipped(bytes, media_byte(boxes));
            &&& has_media_byte(boxes, bytes.len()) <==> 0 <= at < bytes.len()
            &&& 0 <= at < bytes.len() ==> {
                &&& tampered.len() == bytes.len()
                &&& bytes[at] % 2 == 0 ==> tampered[at] == bytes[at] + 1
                &&& bytes[at] % 2 == 1 ==> tampered[at] == bytes[at] - 1
                &&& forall|k: int|
                    0 <= k < bytes.len() && k != at ==> #[trigger] tampered[k] == bytes[k]
            }
        }),
{
    law_first_box_with_a_path(boxes, "mdat"@, first);
    let at = boxes[first].offset + boxes[first].size - 1;
    if 0 <= at < bytes.len() {
        law_flip_inverts_the_lowest_bit(bytes, at);
    }
}

/// A file without an `mdat` box has no media to tamper with.
pub proof fn law_no_media_no_tampering(boxes: Seq<BoxSpan>, len: nat)
    requires
        forall|k: int| 0 <= k < boxes.len() ==> (#[trigger] boxes[k]).path != "mdat"@,
    ensures
        !has_media_byte(boxes, len),
{
    lemma_nothing_selected(boxes, "mdat"@);
}

/// A manifest box lies where its offset says, for as many bytes as it has; a file has one exactly
/// where it says both and the box ends in the file. What stripping leaves, with the box put back
/// between, is the file.
pub proof fn law_manifest_box_lies_where_it_says(bytes: Seq<u8>, boxes: FileBoxes)
    ensures
        has_manifest_box(boxes, bytes.len()) <==> (boxes.manifest_box_offset matches Some(at)
            && boxes.manifest_box_bytes matches Some(b) && at + b@.len() <= bytes.len()),
        has_manifest_box(boxes, bytes.len()) ==> {
            let range = manifest_range(boxes).unwrap();
            &&& range.start == boxes.manifest_box_offset.unwrap()
            &&& range.end - range.start == boxes.manifest_box_bytes.unwrap()@.len()
            &&& bytes.take(range.start).len() == range.start
            &&& bytes.take(range.start) + bytes.subrange(range.start, range.end) + bytes.skip(
                range.end,
            ) == bytes
        },
{
    if has_manifest_box(boxes, bytes.len()) {
        let range = manifest_range(boxes).unwrap();
        assert(bytes.take(range.start) + bytes.subrange(range.start, range.end) + bytes.skip(
            range.end,
        ) =~= bytes);
    }
}

/// Damage to a placeholder inverts the lowest bit of the last byte of the manifest box.
pub proof fn law_damage_hits_the_last_manifest_byte(bytes: Seq<u8>, boxes: FileBoxes)
    requires
        has_manifest_box(boxes, bytes.len()),
        manifest_range(boxes).unwrap().end > 0,
    ensures
        ({
            let at = boxes.manifest_box_offset.unwrap() + boxes.manifest_box_bytes.unwrap()@.len()
                - 1;
            let damaged = flipped(bytes, manifest_range(boxes).unwrap().end - 1);
            &&& damaged.len() == bytes.len()
            &&& bytes[at] % 2 == 0 ==> damaged[at] == bytes[at] + 1
            &&& bytes[at] % 2 == 1 ==> damaged[at] == bytes[at] - 1
            &&& forall|k: int|
                0 <= k < bytes.len() && k != at ==> #[trigger] damaged[k] == bytes[k]
        }),
{
    law_manifest_box_lies_where_it_says(bytes, boxes);
    law_flip_inverts_the_lowest_bit(bytes, manifest_range(boxes).unwrap().end - 1);
}

} // verus!
