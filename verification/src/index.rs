//! The segment index (`sidx`): the byte ranges that it gives to the fragments of a file.

use vstd::prelude::*;

use crate::boxes::{BoxInfo, BoxSpan, lemma_front_selects_first, spans, with_path};
use crate::bytes::{be_value, law_words_are_read_whole, read_be, word_at};
use crate::text::same_text;

verus! {

/// How many bytes the time and offset fields of the index take: eight in version one, else four.
pub open spec fn field_width(bytes: Seq<u8>, sidx: BoxSpan) -> int {
    if bytes[sidx.offset + 8] == 1 {
        8
    } else {
        4
    }
}

/// Where the index says how far behind itself the first range starts.
pub open spec fn first_offset_at(bytes: Seq<u8>, sidx: BoxSpan) -> int {
    sidx.offset + 20 + field_width(bytes, sidx)
}

/// Whether the fields before the references lie in the file.
pub open spec fn header_fits(bytes: Seq<u8>, sidx: BoxSpan) -> bool {
    &&& 0 <= sidx.offset
    &&& sidx.offset + 8 < bytes.len()
    &&& first_offset_at(bytes, sidx) + field_width(bytes, sidx) <= bytes.len()
}

/// Where the reference to fragment `k` lies.
pub open spec fn reference_at(bytes: Seq<u8>, sidx: BoxSpan, k: int) -> int {
    first_offset_at(bytes, sidx) + field_width(bytes, sidx) + 4 + 12 * k
}

/// The first word of the reference to fragment `k`: its type bit and the size of its range.
pub open spec fn reference_size(bytes: Seq<u8>, sidx: BoxSpan, k: int) -> int {
    let at = reference_at(bytes, sidx, k);
    be_value(bytes.subrange(at, at + 4)) as int
}

/// Where the range of fragment `k` starts: behind the index, the first offset and the ranges of
/// the fragments before.
pub open spec fn range_start(bytes: Seq<u8>, sidx: BoxSpan, k: int) -> int
    decreases k,
{
    if k <= 0 {
        let at = first_offset_at(bytes, sidx);
        sidx.end() + be_value(bytes.subrange(at, at + field_width(bytes, sidx)))
    } else {
        range_start(bytes, sidx, k - 1) + reference_size(bytes, sidx, k - 1)
    }
}

/// Whether the index refers to media for fragment `k`, by a range that starts at the fragment's
/// Merkle box and ends where its media data end.
pub open spec fn fragment_is_indexed(
    bytes: Seq<u8>,
    sidx: BoxSpan,
    merkle: Seq<BoxSpan>,
    mdats: Seq<BoxSpan>,
    k: int,
) -> bool {
    &&& k < merkle.len()
    &&& reference_at(bytes, sidx, k) + 4 <= bytes.len()
    &&& reference_size(bytes, sidx, k) < 0x8000_0000
    &&& range_start(bytes, sidx, k) == merkle[k].offset
    &&& range_start(bytes, sidx, k + 1) == mdats[k].end()
    &&& range_start(bytes, sidx, k + 1) <= u64::MAX
}

/// Whether the index agrees with the Merkle boxes and the media data of every fragment.
pub open spec fn index_agrees(
    bytes: Seq<u8>,
    sidx: BoxSpan,
    merkle: Seq<BoxSpan>,
    mdats: Seq<BoxSpan>,
) -> bool {
    &&& header_fits(bytes, sidx)
    &&& range_start(bytes, sidx, 0) <= u64::MAX
    &&& forall|k: int|
        0 <= k < mdats.len() ==> #[trigger] fragment_is_indexed(bytes, sidx, merkle, mdats, k)
}

/// The size that the index gives in the reference at `at`, where it refers to media.
fn media_reference(bytes: &[u8], at: usize) -> (size: Option<u64>)
    requires
        at + 4 <= bytes.len(),
    ensures
        match size {
            Some(n) => n == be_value(bytes@.subrange(at as int, at + 4)) && n < 0x8000_0000,
            None => be_value(bytes@.subrange(at as int, at + 4)) >= 0x8000_0000,
        },
{
    let word: u64 = read_be(vstd::slice::slice_subrange(bytes, at, at + 4));
    if word < 0x8000_0000 {
        Some(word)
    } else {
        None
    }
}

/// Whether the segment index `sidx` of a file agrees with the Merkle boxes and the media data
/// among its boxes.
pub fn check_index(
    bytes: &[u8],
    sidx: &BoxInfo,
    merkle: &Vec<BoxInfo>,
    boxes: &Vec<BoxInfo>,
) -> (agrees: bool)
    ensures
        agrees == index_agrees(
            bytes@,
            sidx@,
            spans(merkle@),
            with_path(spans(boxes@), "mdat"@),
        ),
{
    let ghost all = spans(boxes@);
    let ghost mdats = with_path(all, "mdat"@);
    let ghost boxed = spans(merkle@);
    let len: usize = bytes.len();
    if sidx.offset as u128 + 8 >= len as u128 {
        return false;
    }
    let payload: usize = sidx.offset as usize + 8;
    let width: usize = if bytes[payload] == 1 {
        8
    } else {
        4
    };
    if payload as u128 + 12 + 2 * width as u128 > len as u128 {
        return false;
    }
    let first_at: usize = payload + 12 + width;
    let first: u64 = read_be(vstd::slice::slice_subrange(bytes, first_at, first_at + width));
    let entries: usize = first_at + width;
    let anchor: u128 = sidx.offset as u128 + sidx.size as u128 + first as u128;
    if anchor > u64::MAX as u128 {
        return false;
    }
    let mut start: u64 = anchor as u64;
    let mut index: usize = 0;
    let mut i: usize = 0;
    proof {
        reveal(Seq::filter);
        assert(all.take(0) =~= Seq::<BoxSpan>::empty());
    }
    while i < boxes.len()
        invariant
            all == spans(boxes@),
            mdats == with_path(all, "mdat"@),
            boxed == spans(merkle@),
            len == bytes@.len(),
            header_fits(bytes@, sidx@),
            entries == first_offset_at(bytes@, sidx@) + field_width(bytes@, sidx@),
            i <= boxes@.len(),
            index <= i,
            index == with_path(all.take(i as int), "mdat"@).len(),
            start == range_start(bytes@, sidx@, index as int),
            forall|k: int|
                0 <= k < index ==> #[trigger] fragment_is_indexed(bytes@, sidx@, boxed, mdats, k),
        decreases boxes@.len() - i,
    {
        proof {
            reveal(Seq::filter);
            assert(all.take(i + 1).drop_last() =~= all.take(i as int));
            assert(all.take(i + 1).last() == boxes@[i as int]@);
        }
        if same_text(boxes[i].path.as_str(), "mdat") {
            proof {
                lemma_front_selects_first(all, i + 1, "mdat"@);
                assert(mdats[index as int] == boxes@[i as int]@);
            }
            let ghost here = fragment_is_indexed(bytes@, sidx@, boxed, mdats, index as int);
            if index >= merkle.len() || start != merkle[index].offset {
                assert(!here);
                return false;
            }
            let at: u128 = entries as u128 + 4 + 12 * index as u128;
            if at + 4 > len as u128 {
                assert(!here);
                return false;
            }
            let next: u128 = match media_reference(bytes, at as usize) {
                Some(size) => start as u128 + size as u128,
                None => {
                    assert(!here);
                    return false;
                },
            };
            assert(next == range_start(bytes@, sidx@, index + 1));
            if next > u64::MAX as u128 || next != boxes[i].offset as u128 + boxes[i].size as u128 {
                assert(!here);
                return false;
            }
            start = next as u64;
            index += 1;
        }
        i += 1;
    }
    assert(all.take(i as int) =~= all);
    true
}

/// The ranges of an index that agrees with a file follow one another without gaps: the first
/// fragment's Merkle box stands where the index points, each further one right behind the media
/// of the fragment before, and no fragment's media end before its Merkle box.
pub proof fn law_indexed_ranges_are_contiguous(
    bytes: Seq<u8>,
    sidx: BoxSpan,
    merkle: Seq<BoxSpan>,
    mdats: Seq<BoxSpan>,
)
    requires
        index_agrees(bytes, sidx, merkle, mdats),
    ensures
        mdats.len() <= merkle.len(),
        mdats.len() > 0 ==> merkle[0].offset == range_start(bytes, sidx, 0),
        forall|k: int|
            #![trigger mdats[k]]
            0 <= k && k + 1 < mdats.len() ==> merkle[k + 1].offset == mdats[k].end(),
        forall|k: int|
            #![trigger mdats[k]]
            0 <= k < mdats.len() ==> merkle[k].offset <= mdats[k].end(),
{
    if mdats.len() > 0 {
        assert(fragment_is_indexed(bytes, sidx, merkle, mdats, 0));
        assert(fragment_is_indexed(bytes, sidx, merkle, mdats, mdats.len() - 1));
    }
    assert forall|k: int|
        #![trigger mdats[k]]
        0 <= k && k + 1 < mdats.len() implies merkle[k + 1].offset == mdats[k].end() by {
        assert(fragment_is_indexed(bytes, sidx, merkle, mdats, k));
        assert(fragment_is_indexed(bytes, sidx, merkle, mdats, k + 1));
    }
    assert forall|k: int| #![trigger mdats[k]] 0 <= k < mdats.len() implies merkle[k].offset
        <= mdats[k].end() by {
        assert(fragment_is_indexed(bytes, sidx, merkle, mdats, k));
    }
}

/// Whether reference `k`, of twelve bytes each from byte 40 of the index on in version one and else
/// from byte 32 on, writes in its first four bytes a number below 2^31: how far it is from the
/// start of Merkle box `k` to the end of media data `k`.
pub open spec fn entry_writes_range(
    bytes: Seq<u8>,
    sidx: BoxSpan,
    merkle: Seq<BoxSpan>,
    mdats: Seq<BoxSpan>,
    k: int,
) -> bool {
    let at = sidx.offset + 12 * k + if bytes[sidx.offset + 8] == 1 {
        40int
    } else {
        32
    };
    &&& at + 4 <= bytes.len()
    &&& word_at(bytes, at) < 0x8000_0000
    &&& word_at(bytes, at) == mdats[k].offset + mdats[k].size - merkle[k].offset
    &&& mdats[k].offset + mdats[k].size <= u64::MAX
}

/// Where an index agrees with a file, its bytes say so. The four bytes of each reference write a
/// number below 2^31, and that is how far it is from the fragment's Merkle box to the end of its
/// media, however far. The first Merkle box stands behind the index by the number that the offset
/// field writes, in eight bytes in version one and else in four. Each further Merkle box stands
/// where the media before it end.
pub proof fn law_agreeing_index_writes_the_ranges(
    bytes: Seq<u8>,
    sidx: BoxSpan,
    merkle: Seq<BoxSpan>,
    mdats: Seq<BoxSpan>,
)
    requires
        index_agrees(bytes, sidx, merkle, mdats),
    ensures
        0 <= sidx.offset,
        sidx.offset + 28 <= bytes.len(),
        mdats.len() <= merkle.len(),
        ({
            let wide = bytes[sidx.offset + 8] == 1;
            let first = if wide {
                word_at(bytes, sidx.offset + 28) * 0x1_0000_0000 + word_at(bytes, sidx.offset + 32)
            } else {
                word_at(bytes, sidx.offset + 24)
            };
            &&& wide ==> sidx.offset + 36 <= bytes.len()
            &&& sidx.offset + sidx.size + first <= u64::MAX
            &&& mdats.len() > 0 ==> merkle[0].offset == sidx.offset + sidx.size + first
        }),
        forall|k: int|
            0 <= k < mdats.len() ==> #[trigger] entry_writes_range(bytes, sidx, merkle, mdats, k),
        forall|j: int, k: int|
            0 <= j && k == j + 1 && k < mdats.len() ==> (#[trigger] merkle[k]).offset == (
            #[trigger] mdats[j]).offset + mdats[j].size,
{
    lemma_first_offset(bytes, sidx);
    if mdats.len() > 0 {
        assert(fragment_is_indexed(bytes, sidx, merkle, mdats, 0));
        assert(fragment_is_indexed(bytes, sidx, merkle, mdats, mdats.len() - 1));
    }
    assert forall|k: int| 0 <= k < mdats.len() implies #[trigger] entry_writes_range(
        bytes,
        sidx,
        merkle,
        mdats,
        k,
    ) by {
        assert(fragment_is_indexed(bytes, sidx, merkle, mdats, k));
        law_words_are_read_whole(bytes, reference_at(bytes, sidx, k));
    }
    assert forall|j: int, k: int| 0 <= j && k == j + 1 && k < mdats.len() implies (
    #[trigger] merkle[k]).offset == (#[trigger] mdats[j]).offset + mdats[j].size by {
        assert(fragment_is_indexed(bytes, sidx, merkle, mdats, j));
        assert(fragment_is_indexed(bytes, sidx, merkle, mdats, k));
    }
}

/// An index whose bytes write the ranges of a file agrees with it: the offset field how far the
/// first Merkle box stands behind the index, and each reference, in a number below 2^31, how far
/// it is from the fragment's Merkle box to the end of its media, where the next Merkle box stands.
pub proof fn law_index_that_writes_the_ranges_agrees(
    bytes: Seq<u8>,
    sidx: BoxSpan,
    merkle: Seq<BoxSpan>,
    mdats: Seq<BoxSpan>,
)
    requires
        0 <= sidx.offset,
        sidx.offset + 28 <= bytes.len(),
        mdats.len() <= merkle.len(),
        ({
            let wide = bytes[sidx.offset + 8] == 1;
            let first = if wide {
                word_at(bytes, sidx.offset + 28) * 0x1_0000_0000 + word_at(bytes, sidx.offset + 32)
            } else {
                word_at(bytes, sidx.offset + 24)
            };
            &&& wide ==> sidx.offset + 36 <= bytes.len()
            &&& sidx.offset + sidx.size + first <= u64::MAX
            &&& mdats.len() > 0 ==> merkle[0].offset == sidx.offset + sidx.size + first
        }),
        forall|k: int|
            0 <= k < mdats.len() ==> #[trigger] entry_writes_range(bytes, sidx, merkle, mdats, k),
        forall|j: int, k: int|
            0 <= j && k == j + 1 && k < mdats.len() ==> (#[trigger] merkle[k]).offset == (
            #[trigger] mdats[j]).offset + mdats[j].size,
    ensures
        index_agrees(bytes, sidx, merkle, mdats),
{
    lemma_first_offset(bytes, sidx);
    assert forall|k: int| 0 <= k < mdats.len() implies #[trigger] fragment_is_indexed(
        bytes,
        sidx,
        merkle,
        mdats,
        k,
    ) by {
        lemma_written_range(bytes, sidx, merkle, mdats, k);
        assert(entry_writes_range(bytes, sidx, merkle, mdats, k));
    }
}

proof fn lemma_first_offset(bytes: Seq<u8>, sidx: BoxSpan)
    requires
        header_fits(bytes, sidx),
    ensures
        range_start(bytes, sidx, 0) == sidx.offset + sidx.size + if field_width(bytes, sidx) == 8 {
            word_at(bytes, sidx.offset + 28) * 0x1_0000_0000 + word_at(bytes, sidx.offset + 32)
        } else {
            word_at(bytes, sidx.offset + 24)
        },
{
    law_words_are_read_whole(bytes, first_offset_at(bytes, sidx));
}

proof fn lemma_written_range(
    bytes: Seq<u8>,
    sidx: BoxSpan,
    merkle: Seq<BoxSpan>,
    mdats: Seq<BoxSpan>,
    k: int,
)
    requires
        0 <= k < mdats.len() <= merkle.len(),
        header_fits(bytes, sidx),
        merkle[0].offset == range_start(bytes, sidx, 0),
        forall|j: int|
            0 <= j < mdats.len() ==> #[trigger] entry_writes_range(
                bytes,
                sidx,
                merkle,
                mdats,
                j,
            ),
        forall|i: int, j: int|
            0 <= i && j == i + 1 && j < mdats.len() ==> (#[trigger] merkle[j]).offset == (
            #[trigger] mdats[i]).offset + mdats[i].size,
    ensures
        range_start(bytes, sidx, k) == merkle[k].offset,
        range_start(bytes, sidx, k + 1) == mdats[k].offset + mdats[k].size,
        reference_at(bytes, sidx, k) + 4 <= bytes.len(),
        reference_size(bytes, sidx, k) == word_at(bytes, reference_at(bytes, sidx, k)),
    decreases k,
{
    if k > 0 {
        lemma_written_range(bytes, sidx, merkle, mdats, k - 1);
        assert(merkle[k].offset == mdats[k - 1].offset + mdats[k - 1].size);
    }
    assert(entry_writes_range(bytes, sidx, merkle, mdats, k));
    law_words_are_read_whole(bytes, reference_at(bytes, sidx, k));
}

} // verus!
