//! Which ladders are refused, and what a refusal must look like.

use vstd::prelude::*;

use crate::boxes::{BoxInfo, BoxSpan, FileBoxes, fragment_count, spans};
use crate::builder::{
    Builder, law_settings_have_their_last_values, MERKLE_TREE_MAX_LEAVES, SettingValue,
};
use crate::bytes::{bytes_of, contents, law_files_are_compared_one_by_one, same_files};
use crate::merkle::BmffHash;
use crate::outcome::SignError;
use crate::text::{contains_text, holds_text, same_text};

verus! {

/// How many rungs a ladder may have.
pub const MAX_RUNGS: usize = 256;

/// What the error says where a manifest would not be embedded, or not only.
pub const UNSUPPORTED_TARGET: &'static str = "remote and sidecar manifests are not supported";

/// What the error says where a source has provenance already.
pub const EXISTING_PROVENANCE: &'static str = "ladder sources must not contain C2PA boxes";

/// What decides whether a file can be the source of a rung.
#[derive(Clone, Copy, Debug, PartialEq, Eq, Structural)]
pub struct SourceFacts {
    /// How many fragments the file has.
    pub fragments: usize,
    /// Whether the file holds C2PA boxes.
    pub has_provenance: bool,
}

/// A ladder that is to be signed.
pub struct LadderRequest {
    pub builder: Builder,
    pub sources: Vec<SourceFacts>,
    /// How many outputs are named.
    pub outputs: usize,
    /// Whether an output is there already, by whatever name.
    pub overwriting: bool,
    /// Whether two outputs name one file that is not there yet.
    pub duplicated: bool,
}

/// The reasons for which a ladder can be refused.
#[derive(Clone, Copy, Debug, PartialEq, Eq, Structural)]
pub struct Reasons {
    /// There are no sources.
    pub no_sources: bool,
    /// There are not as many outputs as sources.
    pub unpaired: bool,
    /// There are more rungs than a ladder may have.
    pub too_many_rungs: bool,
    /// The manifest would not be embedded, or a remote one referred to.
    pub unsupported_target: bool,
    /// A source has provenance already.
    pub existing_provenance: bool,
    /// A source has no fragments.
    pub not_fragmented: bool,
    /// A source has more fragments than a Merkle tree may have leaves.
    pub too_many_leaves: bool,
    /// An output would overwrite a file.
    pub overwriting: bool,
    /// Two outputs would be one new file.
    pub duplicated: bool,
}

/// How many leaves a Merkle tree may have, where the builder's settings say so.
pub open spec fn max_leaves(builder: Builder) -> Option<u64> {
    let values = builder@.settings.values;
    if values.dom().contains(MERKLE_TREE_MAX_LEAVES@) {
        match values[MERKLE_TREE_MAX_LEAVES@] {
            SettingValue::Number(n) => Some(n),
            SettingValue::Flag(_) => None,
        }
    } else {
        None
    }
}

/// Whether a source has more fragments than leaves are allowed.
pub open spec fn exceeds(source: SourceFacts, leaves: Option<u64>) -> bool {
    leaves matches Some(n) && source.fragments > n
}

/// The reasons for which a request must be refused.
pub open spec fn reasons_of(request: LadderRequest) -> Reasons {
    let sources = request.sources@;
    let leaves = max_leaves(request.builder);
    Reasons {
        no_sources: sources.len() == 0,
        unpaired: sources.len() != request.outputs,
        too_many_rungs: sources.len() > MAX_RUNGS,
        unsupported_target: request.builder.no_embed || request.builder.remote_url is Some,
        existing_provenance: exists|k: int|
            0 <= k < sources.len() && (#[trigger] sources[k]).has_provenance,
        not_fragmented: exists|k: int|
            0 <= k < sources.len() && (#[trigger] sources[k]).fragments == 0,
        too_many_leaves: exists|k: int|
            0 <= k < sources.len() && exceeds(#[trigger] sources[k], leaves),
        overwriting: request.overwriting,
        duplicated: request.duplicated,
    }
}

impl Reasons {
    /// No reason at all.
    pub open spec fn none() -> Reasons {
        Reasons {
            no_sources: false,
            unpaired: false,
            too_many_rungs: false,
            unsupported_target: false,
            existing_provenance: false,
            not_fragmented: false,
            too_many_leaves: false,
            overwriting: false,
            duplicated: false,
        }
    }

    /// Whether there is a reason that shows before any output is touched.
    pub open spec fn shows_beforehand(self) -> bool {
        ||| self.no_sources
        ||| self.unpaired
        ||| self.too_many_rungs
        ||| self.unsupported_target
        ||| self.existing_provenance
        ||| self.not_fragmented
        ||| self.too_many_leaves
    }

    /// Whether a duplicated output is the only reason.
    pub open spec fn only_duplicated(self) -> bool {
        self == (Reasons { duplicated: true, ..Reasons::none() })
    }

    /// Whether the unsupported target is the only reason.
    pub open spec fn only_unsupported_target(self) -> bool {
        self == (Reasons { unsupported_target: true, ..Reasons::none() })
    }

    /// Whether existing provenance is the only reason.
    pub open spec fn only_existing_provenance(self) -> bool {
        self == (Reasons { existing_provenance: true, ..Reasons::none() })
    }
}

/// Whether a request must be refused.
pub open spec fn is_refused(request: LadderRequest) -> bool {
    reasons_of(request) != Reasons::none()
}

/// Whether a file holds C2PA boxes: a manifest, or Merkle entries.
pub open spec fn holds_provenance(boxes: FileBoxes) -> bool {
    bytes_of(boxes.manifest_bytes) is Some || boxes.bmff_merkle@.len() > 0
}

/// Reads off the boxes of a file what decides whether it can be a source.
pub fn source_facts(boxes: &FileBoxes) -> (facts: SourceFacts)
    ensures
        facts.fragments == fragment_count(spans(boxes.box_infos@)),
        facts.has_provenance == holds_provenance(*boxes),
{
    SourceFacts {
        fragments: count_fragments(&boxes.box_infos),
        has_provenance: boxes.manifest_bytes.is_some() || boxes.bmff_merkle.len() > 0,
    }
}

fn count_fragments(boxes: &Vec<BoxInfo>) -> (count: usize)
    ensures
        count == fragment_count(spans(boxes@)),
{
    let ghost all = spans(boxes@);
    let mut count: usize = 0;
    let mut i: usize = 0;
    proof {
        reveal(Seq::filter);
        assert(all.take(0) =~= Seq::<BoxSpan>::empty());
    }
    while i < boxes.len()
        invariant
            all == spans(boxes@),
            i <= boxes@.len(),
            count <= i,
            count == fragment_count(all.take(i as int)),
        decreases boxes@.len() - i,
    {
        proof {
            reveal(Seq::filter);
            assert(all.take(i + 1).drop_last() =~= all.take(i as int));
            assert(all.take(i + 1).last() == boxes@[i as int]@);
        }
        if same_text(boxes[i].path.as_str(), "moof") {
            count += 1;
        }
        i += 1;
    }
    assert(all.take(i as int) =~= all);
    count
}

fn leaf_limit(builder: &Builder) -> (leaves: Option<u64>)
    ensures
        leaves == max_leaves(*builder),
{
    match builder.settings.value(MERKLE_TREE_MAX_LEAVES) {
        Some(SettingValue::Number(n)) => Some(n),
        _ => None,
    }
}

/// The reasons for which a request must be refused.
pub fn reasons(request: &LadderRequest) -> (found: Reasons)
    ensures
        found == reasons_of(*request),
{
    let leaves = leaf_limit(&request.builder);
    let mut provenance: bool = false;
    let mut unfragmented: bool = false;
    let mut exceeding: bool = false;
    let mut i: usize = 0;
    while i < request.sources.len()
        invariant
            leaves == max_leaves(request.builder),
            i <= request.sources@.len(),
            provenance == exists|k: int|
                0 <= k < i && (#[trigger] request.sources@[k]).has_provenance,
            unfragmented == exists|k: int|
                0 <= k < i && (#[trigger] request.sources@[k]).fragments == 0,
            exceeding == exists|k: int|
                0 <= k < i && exceeds(#[trigger] request.sources@[k], leaves),
        decreases request.sources@.len() - i,
    {
        let source = request.sources[i];
        assert(source == request.sources@[i as int]);
        if source.has_provenance {
            provenance = true;
        }
        if source.fragments == 0 {
            unfragmented = true;
        }
        if let Some(n) = leaves {
            if source.fragments as u128 > n as u128 {
                exceeding = true;
            }
        }
        i += 1;
    }
    Reasons {
        no_sources: request.sources.len() == 0,
        unpaired: request.sources.len() != request.outputs,
        too_many_rungs: request.sources.len() > MAX_RUNGS,
        unsupported_target: request.builder.no_embed || request.builder.remote_url.is_some(),
        existing_provenance: provenance,
        not_fragmented: unfragmented,
        too_many_leaves: exceeding,
        overwriting: request.overwriting,
        duplicated: request.duplicated,
    }
}

/// What was seen of the answer to a request.
pub struct Answer {
    pub result: Result<Vec<u8>, SignError>,
    /// The sources, and what other files were there, before the request.
    pub files_before: Vec<Vec<u8>>,
    /// The same files after it.
    pub files_after: Vec<Vec<u8>>,
    /// The lengths of the outputs that the request brought into being.
    pub created: Vec<u64>,
    /// Where two outputs name one new file: its length, if the file is there after the request.
    pub duplicate: Option<u64>,
}

/// What is wrong with an answer.
#[derive(Clone, Copy, Debug, PartialEq, Eq, Structural)]
pub enum AnswerFault {
    /// A request was refused that had to be met, or met that had to be refused.
    Result,
    /// The refusal does not give its only reason in the words that are due.
    Message,
    /// A file that was there was changed.
    Clobbered,
    /// Something was written although the request was refused.
    Written,
}

/// Whether an error gives the words that are due for the only reason of a refusal.
pub open spec fn words_are_due(why: Reasons, error: SignError) -> bool {
    &&& why.only_unsupported_target() ==> (error matches SignError::BadParam(m) && holds_text(
        m@,
        UNSUPPORTED_TARGET@,
    ))
    &&& why.only_existing_provenance() ==> (error matches SignError::BadParam(m) && m@
        == EXISTING_PROVENANCE@)
}

/// Whether a request that was refused wrote nothing. No output is created where the reason shows
/// beforehand. That outputs clash shows only when they are created: what was created by then is
/// left empty, and a duplicated output, where nothing else stands against the request, is there.
pub open spec fn nothing_written(why: Reasons, created: Seq<u64>, duplicate: Option<u64>) -> bool {
    if why.shows_beforehand() {
        created.len() == 0 && duplicate is None
    } else {
        &&& forall|k: int| 0 <= k < created.len() ==> #[trigger] created[k] == 0
        &&& duplicate matches Some(length) ==> length == 0
        &&& why.only_duplicated() ==> duplicate == Some(0u64)
    }
}

/// What is to be said of the answer to a request that is to be refused for these reasons, or
/// met where there are none.
pub open spec fn answer_verdict(why: Reasons, answer: Answer) -> Result<(), AnswerFault> {
    if (why != Reasons::none()) != (answer.result is Err) {
        Err(AnswerFault::Result)
    } else if answer.result matches Err(e) && !words_are_due(why, e) {
        Err(AnswerFault::Message)
    } else if contents(answer.files_before@) != contents(answer.files_after@) {
        Err(AnswerFault::Clobbered)
    } else if why != Reasons::none() && !nothing_written(why, answer.created@, answer.duplicate) {
        Err(AnswerFault::Written)
    } else {
        Ok(())
    }
}

fn check_words(why: Reasons, error: &SignError) -> (due: bool)
    ensures
        due == words_are_due(why, *error),
{
    let others = why.no_sources || why.unpaired || why.too_many_rungs || why.not_fragmented
        || why.too_many_leaves || why.overwriting || why.duplicated;
    if others {
        return true;
    }
    if why.unsupported_target && !why.existing_provenance {
        match error {
            SignError::BadParam(m) => contains_text(m.as_str(), UNSUPPORTED_TARGET),
            _ => false,
        }
    } else if why.existing_provenance && !why.unsupported_target {
        match error {
            SignError::BadParam(m) => same_text(m.as_str(), EXISTING_PROVENANCE),
            _ => false,
        }
    } else {
        true
    }
}

fn check_nothing_written(why: Reasons, created: &Vec<u64>, duplicate: Option<u64>) -> (holds: bool)
    ensures
        holds == nothing_written(why, created@, duplicate),
{
    if why.no_sources || why.unpaired || why.too_many_rungs || why.unsupported_target
        || why.existing_provenance || why.not_fragmented || why.too_many_leaves {
        return created.len() == 0 && duplicate.is_none();
    }
    let left_empty = match duplicate {
        Some(length) => length == 0,
        None => !why.duplicated || why.overwriting,
    };
    if !left_empty {
        return false;
    }
    let mut i: usize = 0;
    while i < created.len()
        invariant
            !why.shows_beforehand(),
            i <= created@.len(),
            forall|k: int| 0 <= k < i ==> #[trigger] created@[k] == 0,
        decreases created@.len() - i,
    {
        if created[i] != 0 {
            return false;
        }
        i += 1;
    }
    true
}

/// Whether a request was answered as it must be: met where there is no reason against it; else
/// refused, in the words that are due, with every file as it was and no output written.
pub fn check_answer(why: Reasons, answer: &Answer) -> (verdict: Result<(), AnswerFault>)
    ensures
        verdict == answer_verdict(why, *answer),
{
    let refused = why.no_sources || why.unpaired || why.too_many_rungs || why.unsupported_target
        || why.existing_provenance || why.not_fragmented || why.too_many_leaves || why.overwriting
        || why.duplicated;
    match &answer.result {
        Ok(_) => {
            if refused {
                return Err(AnswerFault::Result);
            }
        },
        Err(error) => {
            if !refused {
                return Err(AnswerFault::Result);
            }
            if !check_words(why, error) {
                return Err(AnswerFault::Message);
            }
        },
    }
    if !same_files(&answer.files_before, &answer.files_after) {
        return Err(AnswerFault::Clobbered);
    }
    if refused && !check_nothing_written(why, &answer.created, answer.duplicate) {
        return Err(AnswerFault::Written);
    }
    Ok(())
}

/// Whether a file is bound as a whole: by one hash, with a manifest, and without Merkle maps or
/// entries.
pub open spec fn is_bound_as_a_whole(hash: BmffHash, boxes: FileBoxes) -> bool {
    &&& hash@.hash is Some
    &&& hash@.merkle is None
    &&& bytes_of(boxes.manifest_bytes) is Some
    &&& boxes.bmff_merkle@.len() == 0
}

/// Whether a file is bound as a whole.
pub fn check_bound_as_a_whole(hash: &BmffHash, boxes: &FileBoxes) -> (holds: bool)
    ensures
        holds == is_bound_as_a_whole(*hash, *boxes),
{
    hash.hash.is_some() && hash.merkle.is_none() && boxes.manifest_bytes.is_some()
        && boxes.bmff_merkle.len() == 0
}

/// A ladder that is not refused has sources, at most [`MAX_RUNGS`], each with its output, and
/// each fragmented and without provenance; and its manifest is embedded.
pub proof fn law_met_requests_are_sound(request: LadderRequest)
    requires
        !is_refused(request),
    ensures
        1 <= request.sources@.len() <= MAX_RUNGS,
        request.sources@.len() == request.outputs,
        !request.builder.no_embed,
        request.builder.remote_url is None,
        !request.overwriting,
        !request.duplicated,
        forall|k: int|
            0 <= k < request.sources@.len() ==> {
                &&& (#[trigger] request.sources@[k]).fragments > 0
                &&& !request.sources@[k].has_provenance
                &&& !exceeds(request.sources@[k], max_leaves(request.builder))
            },
{
    let why = reasons_of(request);
    assert(why == Reasons::none());
    assert forall|k: int| 0 <= k < request.sources@.len() implies {
        &&& (#[trigger] request.sources@[k]).fragments > 0
        &&& !request.sources@[k].has_provenance
        &&& !exceeds(request.sources@[k], max_leaves(request.builder))
    } by {
        assert(!why.existing_provenance && !why.not_fragmented && !why.too_many_leaves);
    }
}

/// A source that has provenance, no fragments or too many, wherever it stands, has the whole
/// ladder refused, though every other source is fine: an answer that passes is an error, no file
/// was changed and no output created, duplicated or not.
pub proof fn law_one_bad_source_stops_the_ladder(request: LadderRequest, k: int, answer: Answer)
    requires
        0 <= k < request.sources@.len(),
        request.sources@[k].has_provenance || request.sources@[k].fragments == 0 || exceeds(
            request.sources@[k],
            max_leaves(request.builder),
        ),
        answer_verdict(reasons_of(request), answer) is Ok,
    ensures
        is_refused(request),
        answer.result is Err,
        answer.created@.len() == 0,
        answer.duplicate is None,
        contents(answer.files_before@) == contents(answer.files_after@),
{
    let why = reasons_of(request);
    assert(why.existing_provenance || why.not_fragmented || why.too_many_leaves);
}

/// A file that is bound as a whole cannot be a source, though it has no Merkle entries.
pub proof fn law_whole_file_provenance_is_refused(
    request: LadderRequest,
    k: int,
    hash: BmffHash,
    boxes: FileBoxes,
)
    requires
        0 <= k < request.sources@.len(),
        request.sources@[k].has_provenance == holds_provenance(boxes),
        is_bound_as_a_whole(hash, boxes),
    ensures
        reasons_of(request).existing_provenance,
        is_refused(request),
{
    assert(request.sources@[k].has_provenance);
}

/// A refused request costs no file its contents and gives no output any, whatever the reason.
pub proof fn law_refusals_write_nothing(request: LadderRequest, answer: Answer)
    requires
        is_refused(request),
        answer_verdict(reasons_of(request), answer) is Ok,
    ensures
        answer.result is Err,
        contents(answer.files_before@) == contents(answer.files_after@),
        forall|k: int| 0 <= k < answer.created@.len() ==> #[trigger] answer.created@[k] == 0,
        answer.duplicate matches Some(length) ==> length == 0,
{
}

/// Where nothing stands against a request but that two outputs are one new file, the answer is an
/// error, and the file is there and empty.
pub proof fn law_duplicated_output_is_left_empty(request: LadderRequest, answer: Answer)
    requires
        reasons_of(request).only_duplicated(),
        answer_verdict(reasons_of(request), answer) is Ok,
    ensures
        answer.result is Err,
        answer.duplicate == Some(0u64),
        contents(answer.files_before@) == contents(answer.files_after@),
{
}

/// A request that is refused only for where its manifest would go says so, and one that is
/// refused only for provenance says that.
pub proof fn law_refusals_name_their_only_reason(request: LadderRequest, answer: Answer)
    requires
        answer_verdict(reasons_of(request), answer) is Ok,
    ensures
        reasons_of(request).only_unsupported_target() ==> (answer.result matches Err(
            SignError::BadParam(m),
        ) && holds_text(m@, UNSUPPORTED_TARGET@)),
        reasons_of(request).only_existing_provenance() ==> (answer.result matches Err(
            SignError::BadParam(m),
        ) && m@ == EXISTING_PROVENANCE@),
{
}

/// Each reason holds exactly where the request gives it: no source, not one output for each
/// source, more than 256 sources, a manifest that is not embedded or is remote as well, any source
/// that has provenance, any that has no fragments, an output that is there, two that are one.
pub proof fn law_reasons_follow_the_request(request: LadderRequest)
    ensures
        ({
            let why = reasons_of(request);
            let sources = request.sources@;
            &&& why.no_sources <==> sources.len() == 0
            &&& why.unpaired <==> sources.len() != request.outputs
            &&& why.too_many_rungs <==> sources.len() > 256
            &&& why.unsupported_target <==> request.builder.no_embed
                || request.builder.remote_url is Some
            &&& why.existing_provenance <==> exists|k: int|
                0 <= k < sources.len() && (#[trigger] sources[k]).has_provenance
            &&& why.not_fragmented <==> exists|k: int|
                0 <= k < sources.len() && (#[trigger] sources[k]).fragments == 0
            &&& why.overwriting <==> request.overwriting
            &&& why.duplicated <==> request.duplicated
        }),
{
}

/// The number that `core.merkle_tree_max_leaves` was given last is a maximum: a source with as
/// many fragments as leaves are allowed, or fewer, is fine, and one with more is not. Without such
/// a setting no number of fragments is too many.
pub proof fn law_leaf_limit_is_a_maximum(request: LadderRequest, last: int, limit: u64)
    ensures
        ({
            let entries = request.builder.settings.entries@;
            let sources = request.sources@;
            let why = reasons_of(request);
            &&& 0 <= last < entries.len() && entries[last].key@ == "core.merkle_tree_max_leaves"@
                && entries[last].value == SettingValue::Number(limit) && (forall|k: int|
                last < k < entries.len() ==> (#[trigger] entries[k]).key@
                    != "core.merkle_tree_max_leaves"@) ==> (why.too_many_leaves <==> exists|k: int|
                0 <= k < sources.len() && (#[trigger] sources[k]).fragments > limit)
            &&& (forall|k: int|
                0 <= k < entries.len() ==> (#[trigger] entries[k]).key@
                    != "core.merkle_tree_max_leaves"@) ==> !why.too_many_leaves
        }),
{
    let settings = request.builder.settings;
    let sources = request.sources@;
    let leaves = max_leaves(request.builder);
    law_settings_have_their_last_values(settings, "core.merkle_tree_max_leaves"@, last);
    if leaves == Some(limit) {
        if exists|k: int| 0 <= k < sources.len() && (#[trigger] sources[k]).fragments > limit {
            let k = choose|k: int|
                0 <= k < sources.len() && (#[trigger] sources[k]).fragments > limit;
            assert(exceeds(sources[k], leaves));
        }
    }
}

/// A source that does not exceed a limit does not exceed a higher one: raising the limit brings up
/// no new reason against a request, and lowering it takes none away.
pub proof fn law_higher_limit_refuses_no_more(source: SourceFacts, low: u64, high: u64)
    requires
        low <= high,
    ensures
        exceeds(source, Some(high)) ==> exceeds(source, Some(low)),
        !exceeds(source, Some(low)) <==> source.fragments <= low,
        !exceeds(source, None),
{
}

/// A sound request is met: one with at least one source and at most 256, an output for each that
/// is there neither before nor twice, an embedded manifest and no remote one, and sources without
/// provenance that each have a fragment and, where a limit is set, no more than that.
pub proof fn law_sound_requests_are_met(request: LadderRequest)
    requires
        1 <= request.sources@.len() <= 256,
        request.sources@.len() == request.outputs,
        !request.builder.no_embed,
        request.builder.remote_url is None,
        !request.overwriting,
        !request.duplicated,
        forall|k: int|
            0 <= k < request.sources@.len() ==> {
                &&& !(#[trigger] request.sources@[k]).has_provenance
                &&& request.sources@[k].fragments >= 1
                &&& max_leaves(request.builder) matches Some(n) ==> request.sources@[k].fragments
                    <= n
            },
    ensures
        !is_refused(request),
{
    let why = reasons_of(request);
    assert(!why.existing_provenance && !why.not_fragmented && !why.too_many_leaves);
}

/// Any single reason has a request refused, and a request is refused for some reason only.
pub proof fn law_any_reason_refuses(request: LadderRequest)
    ensures
        is_refused(request) <==> {
            let why = reasons_of(request);
            ||| why.no_sources
            ||| why.unpaired
            ||| why.too_many_rungs
            ||| why.unsupported_target
            ||| why.existing_provenance
            ||| why.not_fragmented
            ||| why.too_many_leaves
            ||| why.overwriting
            ||| why.duplicated
        },
{
}

/// A file has provenance where it holds a manifest, be it an empty one, or any Merkle entry.
pub proof fn law_provenance_is_manifest_or_entries(boxes: FileBoxes)
    ensures
        holds_provenance(boxes) <==> boxes.manifest_bytes is Some || boxes.bmff_merkle@.len() > 0,
{
}

/// A file is bound as a whole exactly where its binding has a hash and no maps, and it holds a
/// manifest and no Merkle entry.
pub proof fn law_bound_as_a_whole_means_no_fragments(hash: BmffHash, boxes: FileBoxes)
    ensures
        is_bound_as_a_whole(hash, boxes) <==> hash.hash is Some && hash.merkle is None
            && boxes.manifest_bytes is Some && boxes.bmff_merkle@.len() == 0,
{
}

/// An answer passes exactly where a request is refused for any reason there is and else met, an
/// only reason is given in its words, every file that was there has its bytes, and a refused
/// request wrote nothing. A reason other than clashing outputs leaves no output behind; outputs
/// that clash are empty, and a new file that two outputs name, unless another is overwritten, is
/// there.
pub proof fn law_answers_pass_by_what_they_leave(why: Reasons, answer: Answer)
    ensures
        ({
            let early = why.no_sources || why.unpaired || why.too_many_rungs
                || why.unsupported_target || why.existing_provenance || why.not_fragmented
                || why.too_many_leaves;
            let clash = why.overwriting || why.duplicated;
            let plain = !why.no_sources && !why.unpaired && !why.too_many_rungs
                && !why.not_fragmented && !why.too_many_leaves && !clash;
            answer_verdict(why, answer) is Ok <==> {
                &&& answer.result is Err <==> early || clash
                &&& plain && why.unsupported_target && !why.existing_provenance
                    ==> (answer.result matches Err(SignError::BadParam(m)) && holds_text(
                    m@,
                    "remote and sidecar manifests are not supported"@,
                ))
                &&& plain && why.existing_provenance && !why.unsupported_target
                    ==> (answer.result matches Err(SignError::BadParam(m)) && m@
                    == "ladder sources must not contain C2PA boxes"@)
                &&& answer.files_before@.len() == answer.files_after@.len()
                &&& forall|k: int|
                    0 <= k < answer.files_before@.len() ==> (#[trigger] answer.files_before@[k])@
                        == (#[trigger] answer.files_after@[k])@
                &&& early ==> answer.created@.len() == 0 && answer.duplicate is None
                &&& !early && clash ==> {
                    &&& forall|k: int|
                        0 <= k < answer.created@.len() ==> #[trigger] answer.created@[k] == 0
                    &&& answer.duplicate matches Some(length) ==> length == 0
                    &&& !why.overwriting ==> answer.duplicate is Some
                }
            }
        }),
{
    law_files_are_compared_one_by_one(answer.files_before@, answer.files_after@);
}

/// The fault of an answer is the first thing that is wrong with it, in the order result, message,
/// files, outputs: a wrong result comes first, words are judged only of a refusal that was due,
/// and outputs only where no file was changed.
pub proof fn law_answer_faults_name_what_is_wrong(why: Reasons, answer: Answer)
    ensures
        ({
            let verdict = answer_verdict(why, answer);
            let refused = why.no_sources || why.unpaired || why.too_many_rungs
                || why.unsupported_target || why.existing_provenance || why.not_fragmented
                || why.too_many_leaves || why.overwriting || why.duplicated;
            let due = answer.result is Err <==> refused;
            let worded = answer.result matches Err(e) ==> words_are_due(why, e);
            let kept = answer.files_before@.len() == answer.files_after@.len() && forall|k: int|
                0 <= k < answer.files_before@.len() ==> (#[trigger] answer.files_before@[k])@ == (
                #[trigger] answer.files_after@[k])@;
            &&& verdict == Err::<(), AnswerFault>(AnswerFault::Result) <==> !due
            &&& verdict == Err::<(), AnswerFault>(AnswerFault::Message) <==> due && !worded
            &&& verdict == Err::<(), AnswerFault>(AnswerFault::Clobbered) <==> due && worded
                && !kept
            &&& verdict == Err::<(), AnswerFault>(AnswerFault::Written) ==> due && worded && kept
                && refused
        }),
{
    law_files_are_compared_one_by_one(answer.files_before@, answer.files_after@);
}

} // verus!
