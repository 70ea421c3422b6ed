use serde_bytes::ByteBuf;
use single_file_ladder::admission::{
    check_answer, check_bound_as_a_whole, reasons, source_facts, Answer, AnswerFault,
    LadderRequest, Reasons, SourceFacts, MAX_RUNGS,
};
use single_file_ladder::boxes::{BoxInfo, FileBoxes, FragmentEntry};
use single_file_ladder::builder::{builder, Builder, SettingValue, Settings, DEFINITION};
use single_file_ladder::media::{
    check_decoding, check_format, expected_format, lists_frame, Decoding,
};
use single_file_ladder::merkle::{BmffHash, ValidationState};
use single_file_ladder::outcome::{
    check_patch_failure, check_post_sign, count_phase, expected_verifications, PostSign,
    PostSignFault, ProgressPhase, SignError,
};

const NONE: Reasons = Reasons {
    no_sources: false,
    unpaired: false,
    too_many_rungs: false,
    unsupported_target: false,
    existing_provenance: false,
    not_fragmented: false,
    too_many_leaves: false,
    overwriting: false,
    duplicated: false,
};

fn source(fragments: usize) -> SourceFacts {
    SourceFacts { fragments, has_provenance: false }
}

fn request(builder: Builder, sources: Vec<SourceFacts>, outputs: usize) -> LadderRequest {
    LadderRequest { builder, sources, outputs, overwriting: false, duplicated: false }
}

fn answer(result: Result<Vec<u8>, SignError>, created: Vec<u64>) -> Answer {
    let files = vec![b"source".to_vec(), b"preserve me".to_vec()];
    Answer { result, files_before: files.clone(), files_after: files, created, duplicate: None }
}

fn refused() -> Answer {
    answer(Err(SignError::Other("no".to_string())), vec![])
}

fn met() -> Answer {
    answer(Ok(vec![1]), vec![9])
}

/// Holds a request to a refusal before anything is written.
fn rejects(request: &LadderRequest) {
    let why = reasons(request);
    assert_ne!(why, NONE);
    assert_eq!(check_answer(why, &met()), Err(AnswerFault::Result));
    let error = || Err(SignError::BadParam("remote and sidecar manifests are not supported".to_string()));
    assert_eq!(check_answer(why, &answer(error(), vec![])), Ok(()));
    assert_eq!(check_answer(why, &answer(error(), vec![0])), Err(AnswerFault::Written));
}

#[test]
fn ladder_rejects_invalid_inputs_before_writing() {
    let leaves = Settings::new().with_value("core.merkle_tree_max_leaves", SettingValue::Number(1));
    let narrow = Builder::from_settings(leaves).with_definition(DEFINITION);
    rejects(&request(narrow, vec![source(3)], 1));
    rejects(&request(builder(), vec![source(3), source(0)], 2));
    rejects(&request(builder(), vec![], 0));
    rejects(&request(builder(), vec![source(3)], 2));
    let mut many = request(builder(), vec![source(3); 257], 257);
    many.duplicated = true;
    rejects(&many);
    let mut there = refused();
    there.duplicate = Some(0);
    assert_eq!(check_answer(reasons(&many), &there), Err(AnswerFault::Written));
    for (no_embed, remote) in [(true, false), (true, true), (false, true)] {
        let mut b = builder();
        b.set_no_embed(no_embed);
        if remote {
            b.set_remote_url("https://example.invalid/manifest.c2pa");
        }
        let request = request(b, vec![source(3)], 1);
        rejects(&request);
        let why = reasons(&request);
        assert_eq!(check_answer(why, &refused()), Err(AnswerFault::Message));
        let other = answer(Err(SignError::BadParam("no".to_string())), vec![]);
        assert_eq!(check_answer(why, &other), Err(AnswerFault::Message));
    }
}

#[test]
fn each_reason_is_found_alone() {
    let found = |sources: Vec<SourceFacts>, outputs: usize| {
        reasons(&request(builder(), sources, outputs))
    };
    assert_eq!(found(vec![source(3), source(1)], 2), NONE);
    assert_eq!(found(vec![source(3); MAX_RUNGS], MAX_RUNGS), NONE);
    assert_eq!(found(vec![], 0), Reasons { no_sources: true, ..NONE });
    assert_eq!(found(vec![source(3)], 2), Reasons { unpaired: true, ..NONE });
    assert_eq!(found(vec![source(3); 257], 257), Reasons { too_many_rungs: true, ..NONE });
    assert_eq!(found(vec![source(3), source(0)], 2), Reasons { not_fragmented: true, ..NONE });
    let signed = SourceFacts { fragments: 3, has_provenance: true };
    assert_eq!(found(vec![source(3), signed], 2), Reasons { existing_provenance: true, ..NONE });
    let mut clash = request(builder(), vec![source(3)], 1);
    clash.overwriting = true;
    assert_eq!(reasons(&clash), Reasons { overwriting: true, ..NONE });
    let mut twice = request(builder(), vec![source(3); 2], 2);
    twice.duplicated = true;
    assert_eq!(reasons(&twice), Reasons { duplicated: true, ..NONE });
    for (limit, exceeded) in [(2, true), (3, false)] {
        let settings =
            Settings::new().with_value("core.merkle_tree_max_leaves", SettingValue::Number(limit));
        let b = Builder::from_settings(settings);
        let why = reasons(&request(b, vec![source(3)], 1));
        assert_eq!(why, Reasons { too_many_leaves: exceeded, ..NONE });
    }
}

#[test]
fn existing_provenance_is_refused_in_its_own_words() {
    let why = Reasons { existing_provenance: true, ..NONE };
    let due = "ladder sources must not contain C2PA boxes";
    let told = answer(Err(SignError::BadParam(due.to_string())), vec![]);
    assert_eq!(check_answer(why, &told), Ok(()));
    let more = answer(Err(SignError::BadParam(format!("{due}!"))), vec![]);
    assert_eq!(check_answer(why, &more), Err(AnswerFault::Message));
    let other = answer(Err(SignError::InvalidManifest(due.to_string())), vec![]);
    assert_eq!(check_answer(why, &other), Err(AnswerFault::Message));
    let both = Reasons { unsupported_target: true, ..why };
    assert_eq!(check_answer(both, &told), Ok(()));
}

#[test]
fn existing_files_and_aliases_are_never_clobbered() {
    let why = Reasons { overwriting: true, ..NONE };
    assert_eq!(check_answer(why, &met()), Err(AnswerFault::Result));
    assert_eq!(check_answer(why, &refused()), Ok(()));
    let mut left_empty = refused();
    left_empty.created = vec![0];
    assert_eq!(check_answer(why, &left_empty), Ok(()));
    let mut written = refused();
    written.created = vec![0, 7];
    assert_eq!(check_answer(why, &written), Err(AnswerFault::Written));
    let mut clobbered = refused();
    clobbered.files_after[1] = b"gone".to_vec();
    assert_eq!(check_answer(why, &clobbered), Err(AnswerFault::Clobbered));
}

#[test]
fn a_duplicated_destination_is_there_and_empty() {
    let why = Reasons { duplicated: true, ..NONE };
    let with = |duplicate: Option<u64>| {
        let mut answer = refused();
        answer.duplicate = duplicate;
        answer
    };
    assert_eq!(check_answer(why, &with(Some(0))), Ok(()));
    assert_eq!(check_answer(why, &with(None)), Err(AnswerFault::Written));
    assert_eq!(check_answer(why, &with(Some(7))), Err(AnswerFault::Written));
    assert_eq!(check_answer(why, &met()), Err(AnswerFault::Result));
    let both = Reasons { overwriting: true, ..why };
    assert_eq!(check_answer(both, &with(None)), Ok(()));
    assert_eq!(check_answer(both, &with(Some(1))), Err(AnswerFault::Written));
}

#[test]
fn sound_requests_are_met() {
    assert_eq!(check_answer(NONE, &met()), Ok(()));
    assert_eq!(check_answer(NONE, &refused()), Err(AnswerFault::Result));
    let mut clobbered = met();
    clobbered.files_after.pop();
    assert_eq!(check_answer(NONE, &clobbered), Err(AnswerFault::Clobbered));
}

fn flat_file() -> FileBoxes {
    let info = |path: &str| BoxInfo { path: path.to_string(), offset: 0, size: 8 };
    FileBoxes {
        box_infos: vec![info("moof"), info("mdat"), info("moof"), info("mdat")],
        manifest_bytes: Some(vec![1]),
        manifest_box_offset: Some(0),
        manifest_box_bytes: Some(vec![1]),
        first_aux_uuid_offset: 0,
        bmff_merkle: vec![],
        bmff_merkle_box_infos: vec![],
    }
}

#[test]
fn whole_file_provenance_is_recognised() {
    let hash = BmffHash { hash: Some(ByteBuf::from(vec![1; 32])), merkle: None, bmff_version: 3 };
    let mut boxes = flat_file();
    assert!(check_bound_as_a_whole(&hash, &boxes));
    assert_eq!(source_facts(&boxes), SourceFacts { fragments: 2, has_provenance: true });
    boxes.manifest_bytes = None;
    assert!(!check_bound_as_a_whole(&hash, &boxes));
    assert_eq!(source_facts(&boxes), SourceFacts { fragments: 2, has_provenance: false });
    boxes.bmff_merkle.push(FragmentEntry { unique_id: 1, local_id: 1, location: 0 });
    assert_eq!(source_facts(&boxes), SourceFacts { fragments: 2, has_provenance: true });
    let maps = BmffHash { hash: None, merkle: Some(vec![]), bmff_version: 3 };
    assert!(!check_bound_as_a_whole(&maps, &flat_file()));
    assert!(!check_bound_as_a_whole(
        &BmffHash { hash: Some(ByteBuf::from(vec![1; 32])), merkle: Some(vec![]), bmff_version: 3 },
        &flat_file()
    ));
}

fn post_sign(verify: bool, hashes: bool, damaged: bool) -> PostSign {
    let mut phases = vec![ProgressPhase::Signing, ProgressPhase::Embedding];
    let times = if !verify {
        0
    } else if hashes {
        2
    } else {
        1
    };
    for _ in 0..times {
        phases.push(ProgressPhase::VerifyingManifest);
        phases.push(ProgressPhase::VerifyingSignature);
        if hashes {
            phases.push(ProgressPhase::VerifyingAssetHash);
        }
    }
    let sources = vec![vec![1, 2], vec![3]];
    PostSign {
        result: if verify && hashes && damaged {
            Err(SignError::InvalidManifest("hash".to_string()))
        } else {
            Ok(vec![1])
        },
        phases,
        sources_before: sources.clone(),
        sources_after: sources,
        state: if damaged { ValidationState::Invalid } else { ValidationState::Valid },
    }
}

#[test]
fn verification_after_signing_follows_the_settings() {
    for (verify, hashes) in [(false, false), (false, true), (true, false), (true, true)] {
        for damaged in [false, true] {
            let seen = post_sign(verify, hashes, damaged);
            assert_eq!(check_post_sign(verify, hashes, damaged, &seen), Ok(()));
        }
    }
    assert_eq!(expected_verifications(false, false), 0);
    assert_eq!(expected_verifications(false, true), 0);
    assert_eq!(expected_verifications(true, false), 1);
    assert_eq!(expected_verifications(true, true), 2);
}

#[test]
fn each_fault_after_signing_is_told() {
    let mut seen = post_sign(true, true, true);
    seen.result = Ok(vec![1]);
    assert_eq!(check_post_sign(true, true, true, &seen), Err(PostSignFault::Result));
    seen.result = Err(SignError::JumbfCreationError);
    assert_eq!(check_post_sign(true, true, true, &seen), Err(PostSignFault::Result));
    seen = post_sign(true, false, true);
    seen.result = Err(SignError::InvalidManifest(String::new()));
    assert_eq!(check_post_sign(true, false, true, &seen), Err(PostSignFault::Result));
    seen = post_sign(true, false, false);
    seen.phases.push(ProgressPhase::VerifyingManifest);
    assert_eq!(check_post_sign(true, false, false, &seen), Err(PostSignFault::Manifest));
    seen = post_sign(true, false, false);
    seen.phases.push(ProgressPhase::VerifyingSignature);
    assert_eq!(check_post_sign(true, false, false, &seen), Err(PostSignFault::Signature));
    seen = post_sign(true, false, false);
    seen.phases.push(ProgressPhase::VerifyingAssetHash);
    assert_eq!(check_post_sign(true, false, false, &seen), Err(PostSignFault::AssetHash));
    seen = post_sign(true, true, false);
    seen.phases.retain(|p| *p != ProgressPhase::VerifyingAssetHash);
    assert_eq!(check_post_sign(true, true, false, &seen), Err(PostSignFault::AssetHash));
    seen = post_sign(false, false, false);
    seen.sources_after[0].push(0);
    assert_eq!(check_post_sign(false, false, false, &seen), Err(PostSignFault::Sources));
    for state in [ValidationState::Invalid, ValidationState::Trusted] {
        seen = post_sign(false, false, false);
        seen.state = state;
        assert_eq!(check_post_sign(false, false, false, &seen), Err(PostSignFault::State));
    }
    let phases = vec![ProgressPhase::Signing, ProgressPhase::Other, ProgressPhase::Signing];
    assert_eq!(count_phase(&phases, ProgressPhase::Signing), 2);
    assert_eq!(count_phase(&phases, ProgressPhase::Embedding), 0);
}

#[test]
fn failed_patch_leaves_the_damaged_output() {
    let failed = Err(SignError::JumbfCreationError);
    assert!(check_patch_failure(&failed, &[1, 2], &[1, 2], &[3], &[3]));
    assert!(!check_patch_failure(&failed, &[1, 3], &[1, 2], &[3], &[3]));
    assert!(!check_patch_failure(&failed, &[1, 2], &[1, 2], &[3], &[4]));
    assert!(!check_patch_failure(&Ok(vec![]), &[1, 2], &[1, 2], &[3], &[3]));
    let other = Err(SignError::Other(String::new()));
    assert!(!check_patch_failure(&other, &[1, 2], &[1, 2], &[3], &[3]));
}

fn run(stdout: &str) -> Decoding {
    Decoding { success: true, stdout: stdout.as_bytes().to_vec(), stderr: vec![] }
}

#[test]
fn sources_and_outputs_decode_to_the_same_frames() {
    let text = "#format: frame checksums\n0, 0, 0, 1, 36, abc\n";
    assert!(check_decoding(&run(text), &run(text)));
    assert!(!check_decoding(&run(text), &run("0, 0, 0, 1, 36, abd\n")));
    assert!(!check_decoding(&run("none"), &run("none")));
    let mut failed = run(text);
    failed.success = false;
    assert!(!check_decoding(&failed, &run(text)));
    let mut warned = run(text);
    warned.stderr = b"warning".to_vec();
    assert!(!check_decoding(&run(text), &warned));
    assert!(lists_frame(b"0,"));
    assert!(!lists_frame(b"10,\n1,0,\n0"));
    assert!(!lists_frame(b""));
}

#[test]
fn format_follows_the_first_source() {
    assert_eq!(expected_format("source0.mp4"), Some("video/mp4"));
    assert_eq!(expected_format("audio0.m4a"), Some("audio/mp4"));
    assert_eq!(expected_format("mp4"), None);
    assert_eq!(expected_format("a.mp4.mov"), None);
    assert!(check_format("source0.mp4", "video/mp4"));
    assert!(!check_format("audio0.m4a", "video/mp4"));
    assert!(check_format("audio0.m4a", "audio/mp4"));
    assert!(!check_format("notes.txt", "video/mp4"));
}
