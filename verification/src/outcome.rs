//! What signing a ladder can end in, and what it must end in when its files are damaged on the
//! way.

use vstd::prelude::*;

use crate::bytes::{contents, law_files_are_compared_one_by_one, same_bytes, same_files};
use crate::merkle::ValidationState;

verus! {

/// Why signing failed.
#[derive(Clone, Debug)]
pub enum SignError {
    /// A parameter was refused, with the reason in words.
    BadParam(String),
    /// The signed manifest did not pass verification.
    InvalidManifest(String),
    /// The manifest could not be written in the place kept for it.
    JumbfCreationError,
    /// Anything else, in words.
    Other(String),
}

/// What signing is doing when it reports progress.
#[derive(Clone, Copy, Debug, PartialEq, Eq, Structural)]
pub enum ProgressPhase {
    Signing,
    Embedding,
    VerifyingManifest,
    VerifyingSignature,
    VerifyingAssetHash,
    Other,
}

/// The predicate "is this phase".
pub open spec fn is_phase(phase: ProgressPhase) -> spec_fn(ProgressPhase) -> bool {
    |p: ProgressPhase| p == phase
}

/// How often a phase was reported.
pub open spec fn phase_count(phases: Seq<ProgressPhase>, phase: ProgressPhase) -> nat {
    phases.filter(is_phase(phase)).len()
}

/// How often the manifest of a ladder of two rungs is verified after signing: not at all, once
/// without the files, or once with each file.
pub open spec fn verifications(verify: bool, hashes: bool) -> nat {
    if !verify {
        0
    } else if hashes {
        2
    } else {
        1
    }
}

/// Whether signing must fail on account of a file that was damaged on the way: only where it
/// verifies what it signed, hashes and all.
pub open spec fn catches_damage(verify: bool, hashes: bool, damaged: bool) -> bool {
    verify && hashes && damaged
}

/// What was seen of a ladder of two rungs that was signed with given verification settings.
pub struct PostSign {
    pub result: Result<Vec<u8>, SignError>,
    pub phases: Vec<ProgressPhase>,
    pub sources_before: Vec<Vec<u8>>,
    pub sources_after: Vec<Vec<u8>>,
    /// How a reader judges the second output.
    pub state: ValidationState,
}

/// What is wrong with what was seen.
#[derive(Clone, Copy, Debug, PartialEq, Eq, Structural)]
pub enum PostSignFault {
    /// Signing succeeded where it had to fail, or failed where it had to succeed.
    Result,
    /// The manifest was not verified as often as it should be.
    Manifest,
    /// The signature was not verified as often as it should be.
    Signature,
    /// Asset hashes were verified where they should not be, or not where they should.
    AssetHash,
    /// A source was changed.
    Sources,
    /// A reader does not see the damage, or sees some where there is none.
    State,
}

/// Whether the result is the one that is due: a manifest, or the error for an invalid one.
pub open spec fn result_is_due(
    verify: bool,
    hashes: bool,
    damaged: bool,
    result: Result<Vec<u8>, SignError>,
) -> bool {
    if catches_damage(verify, hashes, damaged) {
        result matches Err(SignError::InvalidManifest(_))
    } else {
        result is Ok
    }
}

/// What is to be said of a ladder that was signed with these settings, of which the second file
/// was damaged, or not, before the manifest was embedded.
pub open spec fn post_sign_verdict(
    verify: bool,
    hashes: bool,
    damaged: bool,
    seen: PostSign,
) -> Result<(), PostSignFault> {
    let times = verifications(verify, hashes);
    if !result_is_due(verify, hashes, damaged, seen.result) {
        Err(PostSignFault::Result)
    } else if phase_count(seen.phases@, ProgressPhase::VerifyingManifest) != times {
        Err(PostSignFault::Manifest)
    } else if phase_count(seen.phases@, ProgressPhase::VerifyingSignature) != times {
        Err(PostSignFault::Signature)
    } else if seen.phases@.contains(ProgressPhase::VerifyingAssetHash) != (verify && hashes) {
        Err(PostSignFault::AssetHash)
    } else if contents(seen.sources_before@) != contents(seen.sources_after@) {
        Err(PostSignFault::Sources)
    } else if seen.state != (if damaged {
        ValidationState::Invalid
    } else {
        ValidationState::Valid
    }) {
        Err(PostSignFault::State)
    } else {
        Ok(())
    }
}

/// Counts how often a phase was reported.
pub fn count_phase(phases: &Vec<ProgressPhase>, phase: ProgressPhase) -> (count: usize)
    ensures
        count == phase_count(phases@, phase),
        count > 0 <==> phases@.contains(phase),
{
    let mut count: usize = 0;
    let mut i: usize = 0;
    proof {
        reveal(Seq::filter);
        assert(phases@.take(0) =~= Seq::<ProgressPhase>::empty());
    }
    while i < phases.len()
        invariant
            i <= phases@.len(),
            count <= i,
            count == phase_count(phases@.take(i as int), phase),
            count > 0 <==> exists|k: int| 0 <= k < i && phases@[k] == phase,
        decreases phases@.len() - i,
    {
        proof {
            reveal(Seq::filter);
            assert(phases@.take(i + 1).drop_last() =~= phases@.take(i as int));
        }
        if phases[i] == phase {
            count += 1;
        }
        i += 1;
    }
    assert(phases@.take(i as int) =~= phases@);
    count
}

/// How often the manifest of a ladder of two rungs must be verified after signing.
pub fn expected_verifications(verify: bool, hashes: bool) -> (times: usize)
    ensures
        times == verifications(verify, hashes),
{
    if !verify {
        0
    } else if hashes {
        2
    } else {
        1
    }
}

/// Whether a ladder of two rungs that was signed with these settings, of which the second file
/// was damaged, or not, came out as it must.
pub fn check_post_sign(verify: bool, hashes: bool, damaged: bool, seen: &PostSign) -> (verdict:
    Result<(), PostSignFault>)
    ensures
        verdict == post_sign_verdict(verify, hashes, damaged, *seen),
{
    let due = if verify && hashes && damaged {
        matches!(seen.result, Err(SignError::InvalidManifest(_)))
    } else {
        seen.result.is_ok()
    };
    if !due {
        return Err(PostSignFault::Result);
    }
    let times: usize = expected_verifications(verify, hashes);
    if count_phase(&seen.phases, ProgressPhase::VerifyingManifest) != times {
        return Err(PostSignFault::Manifest);
    }
    if count_phase(&seen.phases, ProgressPhase::VerifyingSignature) != times {
        return Err(PostSignFault::Signature);
    }
    let hashed = count_phase(&seen.phases, ProgressPhase::VerifyingAssetHash) > 0;
    if hashed != (verify && hashes) {
        return Err(PostSignFault::AssetHash);
    }
    if !same_files(&seen.sources_before, &seen.sources_after) {
        return Err(PostSignFault::Sources);
    }
    let state = if damaged {
        ValidationState::Invalid
    } else {
        ValidationState::Valid
    };
    if seen.state != state {
        return Err(PostSignFault::State);
    }
    Ok(())
}

/// Whether signing a file whose placeholder was damaged on the way failed for that reason, left
/// the output as the damage had left it, and left the source alone.
pub fn check_patch_failure(
    result: &Result<Vec<u8>, SignError>,
    output: &[u8],
    damaged: &[u8],
    source_before: &[u8],
    source_after: &[u8],
) -> (holds: bool)
    ensures
        holds == (result matches Err(SignError::JumbfCreationError) && output@ == damaged@
            && source_before@ == source_after@),
{
    matches!(result, Err(SignError::JumbfCreationError)) && same_bytes(output, damaged)
        && same_bytes(source_before, source_after)
}

/// Where the check of a signed ladder passes, damage is answered by an error exactly where both
/// verifications are on, is seen by a reader in any case, and costs no source.
pub proof fn law_damage_is_answered_where_it_is_verified(
    verify: bool,
    hashes: bool,
    damaged: bool,
    seen: PostSign,
)
    requires
        post_sign_verdict(verify, hashes, damaged, seen) is Ok,
    ensures
        seen.result is Err <==> verify && hashes && damaged,
        seen.result is Err ==> seen.result matches Err(SignError::InvalidManifest(_)),
        seen.state == ValidationState::Invalid <==> damaged,
        contents(seen.sources_before@) == contents(seen.sources_after@),
{
}

/// A phase counts every time that it is reported, and no other does; it was reported where it
/// counts at all.
pub proof fn law_phases_count_each_report(
    phases: Seq<ProgressPhase>,
    next: ProgressPhase,
    phase: ProgressPhase,
)
    ensures
        phase_count(Seq::empty(), phase) == 0,
        next == phase ==> phase_count(phases.push(next), phase) == phase_count(phases, phase) + 1,
        next != phase ==> phase_count(phases.push(next), phase) == phase_count(phases, phase),
        phase_count(phases, phase) > 0 <==> phases.contains(phase),
{
    reveal(Seq::filter);
    assert(phases.push(next).drop_last() =~= phases);
    lemma_counted_where_reported(phases, phase);
}

proof fn lemma_counted_where_reported(phases: Seq<ProgressPhase>, phase: ProgressPhase)
    ensures
        phase_count(phases, phase) > 0 <==> phases.contains(phase),
    decreases phases.len(),
{
    reveal(Seq::filter);
    if phases.len() > 0 {
        let rest = phases.drop_last();
        lemma_counted_where_reported(rest, phase);
        if phases.contains(phase) {
            let k = choose|k: int| 0 <= k < phases.len() && phases[k] == phase;
            if k < rest.len() {
                assert(rest[k] == phase);
            }
        }
        if rest.contains(phase) {
            let k = choose|k: int| 0 <= k < rest.len() && rest[k] == phase;
            assert(phases[k] == phase);
        }
        if phases.last() == phase {
            assert(phases[phases.len() - 1] == phase);
        }
    }
}

/// What passes after signing kept to the settings, whichever they are. With verification off
/// neither manifest nor signature was verified, nor any asset hash. With both settings on each was
/// verified twice, and asset hashes were. With verification on without hashes each was verified
/// once, and no asset hash was.
pub proof fn law_verification_keeps_to_the_settings(
    verify: bool,
    hashes: bool,
    damaged: bool,
    seen: PostSign,
)
    requires
        post_sign_verdict(verify, hashes, damaged, seen) is Ok,
    ensures
        ({
            let manifests = phase_count(seen.phases@, ProgressPhase::VerifyingManifest);
            let signatures = phase_count(seen.phases@, ProgressPhase::VerifyingSignature);
            let hashed = seen.phases@.contains(ProgressPhase::VerifyingAssetHash);
            &&& !verify ==> manifests == 0 && signatures == 0 && !hashed
            &&& !verify ==> !seen.phases@.contains(ProgressPhase::VerifyingManifest)
                && !seen.phases@.contains(ProgressPhase::VerifyingSignature)
            &&& verify && !hashes ==> manifests == 1 && signatures == 1 && !hashed
            &&& verify && hashes ==> manifests == 2 && signatures == 2 && hashed
        }),
{
    lemma_counted_where_reported(seen.phases@, ProgressPhase::VerifyingManifest);
    lemma_counted_where_reported(seen.phases@, ProgressPhase::VerifyingSignature);
}

/// Whatever comes of signing as it must, passes: with the result that is due, manifest and
/// signature verified as often as the settings ask, asset hashes where they ask for them, every
/// source as it was, and a reader who finds the second file invalid if it was damaged and else
/// valid. What other phases were reported, and in what order, counts for nothing.
pub proof fn law_right_outcomes_pass(verify: bool, hashes: bool, damaged: bool, seen: PostSign)
    requires
        verify && hashes && damaged ==> (seen.result matches Err(SignError::InvalidManifest(_))),
        !(verify && hashes && damaged) ==> seen.result is Ok,
        ({
            let manifests = phase_count(seen.phases@, ProgressPhase::VerifyingManifest);
            let signatures = phase_count(seen.phases@, ProgressPhase::VerifyingSignature);
            &&& !verify ==> manifests == 0 && signatures == 0
            &&& verify && !hashes ==> manifests == 1 && signatures == 1
            &&& verify && hashes ==> manifests == 2 && signatures == 2
        }),
        seen.phases@.contains(ProgressPhase::VerifyingAssetHash) <==> verify && hashes,
        seen.sources_before@.len() == seen.sources_after@.len(),
        forall|k: int|
            0 <= k < seen.sources_before@.len() ==> (#[trigger] seen.sources_before@[k])@ == (
            #[trigger] seen.sources_after@[k])@,
        damaged ==> seen.state == ValidationState::Invalid,
        !damaged ==> seen.state == ValidationState::Valid,
    ensures
        post_sign_verdict(verify, hashes, damaged, seen) is Ok,
{
    law_files_are_compared_one_by_one(seen.sources_before@, seen.sources_after@);
}

/// The fault of what was seen is the first thing that is wrong with it, in the order result,
/// manifest, signature, asset hash, sources, state.
pub proof fn law_post_sign_faults_name_what_is_wrong(
    verify: bool,
    hashes: bool,
    damaged: bool,
    seen: PostSign,
)
    ensures
        ({
            let verdict = post_sign_verdict(verify, hashes, damaged, seen);
            let times = if verify && hashes {
                2nat
            } else if verify {
                1
            } else {
                0
            };
            let due = if verify && hashes && damaged {
                seen.result matches Err(SignError::InvalidManifest(_))
            } else {
                seen.result is Ok
            };
            let manifest = phase_count(seen.phases@, ProgressPhase::VerifyingManifest) == times;
            let signature = phase_count(seen.phases@, ProgressPhase::VerifyingSignature) == times;
            let asset = seen.phases@.contains(ProgressPhase::VerifyingAssetHash) == (times == 2);
            let kept = seen.sources_before@.len() == seen.sources_after@.len() && forall|k: int|
                0 <= k < seen.sources_before@.len() ==> (#[trigger] seen.sources_before@[k])@ == (
                #[trigger] seen.sources_after@[k])@;
            let judged = if damaged {
                seen.state == ValidationState::Invalid
            } else {
                seen.state == ValidationState::Valid
            };
            let fits = due && manifest && signature && asset;
            &&& verdict == Err::<(), PostSignFault>(PostSignFault::Result) <==> !due
            &&& verdict == Err::<(), PostSignFault>(PostSignFault::Manifest) <==> due && !manifest
            &&& verdict == Err::<(), PostSignFault>(PostSignFault::Signature) <==> due && manifest
                && !signature
            &&& verdict == Err::<(), PostSignFault>(PostSignFault::AssetHash) <==> due && manifest
                && signature && !asset
            &&& verdict == Err::<(), PostSignFault>(PostSignFault::Sources) <==> fits && !kept
            &&& verdict == Err::<(), PostSignFault>(PostSignFault::State) <==> fits && kept
                && !judged
        }),
{
    law_files_are_compared_one_by_one(seen.sources_before@, seen.sources_after@);
}

/// No verification of manifest or signature goes unnoticed: of two lists of phases, of which one
/// has such a report more than the other, at most one passes.
pub proof fn law_no_verification_goes_unnoticed(
    verify: bool,
    hashes: bool,
    damaged: bool,
    seen: PostSign,
    longer: PostSign,
    extra: ProgressPhase,
)
    requires
        extra == ProgressPhase::VerifyingManifest || extra == ProgressPhase::VerifyingSignature,
        longer.phases@ == seen.phases@.push(extra),
    ensures
        !(post_sign_verdict(verify, hashes, damaged, seen) is Ok && post_sign_verdict(
            verify,
            hashes,
            damaged,
            longer,
        ) is Ok),
{
    law_phases_count_each_report(seen.phases@, extra, extra);
}

/// How often a ladder of two rungs must be verified follows from the settings: without
/// verification never, whatever the other setting; with it once, and once more where hashes are
/// verified too.
pub proof fn law_verifications_follow_the_settings(hashes: bool)
    ensures
        verifications(false, hashes) == 0,
        verifications(true, false) == 1,
        verifications(true, true) == verifications(true, false) + 1,
{
}

/// Damage makes signing fail where both settings are on, and what is not damaged never does; so
/// the result that is due is the error for an invalid manifest there, and a manifest elsewhere.
pub proof fn law_damage_fails_only_where_hashes_are_verified(
    verify: bool,
    hashes: bool,
    damaged: bool,
    result: Result<Vec<u8>, SignError>,
)
    ensures
        catches_damage(verify, hashes, damaged) ==> verify && hashes && damaged,
        catches_damage(true, true, true),
        verify && hashes && damaged ==> (result_is_due(verify, hashes, damaged, result)
            <==> result matches Err(SignError::InvalidManifest(_))),
        !(verify && hashes && damaged) ==> (result_is_due(verify, hashes, damaged, result)
            <==> result is Ok),
{
}

} // verus!
