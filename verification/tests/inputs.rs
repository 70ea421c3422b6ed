use serde_bytes::ByteBuf;
use single_file_ladder::builder::{
    builder, verifying_builder, Builder, SettingValue, Settings, DEFINITION,
    MERKLE_TREE_MAX_LEAVES, PREFER_COMPRESS_MANIFESTS, VERIFY_AFTER_SIGN, VERIFY_AFTER_SIGN_HASH,
};
use single_file_ladder::dynamic::{
    check_endorsement, find_binding, AssertionRef, Dynamic, DynamicAssertionContent,
    DynamicSigner, Endorsement, PartialClaim, Signer,
};
use single_file_ladder::instance::{check_instance, check_uuid, InstanceFault};
use single_file_ladder::naming::{audio_first_path, audio_paths, paths};
use single_file_ladder::outcome::SignError;
use single_file_ladder::text::{contains_text, has_suffix, numbered, same_text, strip_prefix};

#[test]
fn ordinary_builder_verifies_what_it_signed() {
    let b = builder();
    assert_eq!(b.settings.value(VERIFY_AFTER_SIGN), Some(SettingValue::Flag(true)));
    assert_eq!(b.settings.value(VERIFY_AFTER_SIGN_HASH), None);
    assert!(b.settings.trust_anchors);
    assert_eq!(b.definition, DEFINITION);
    assert!(DEFINITION.starts_with(r#"{"title":"ladder","assertions":[{"label":"c2pa.actions""#));
    assert!(!b.no_embed);
    assert_eq!(b.remote_url, None);
}

#[test]
fn setting_names_are_those_of_the_host() {
    assert_eq!(VERIFY_AFTER_SIGN, "verify.verify_after_sign");
    assert_eq!(VERIFY_AFTER_SIGN_HASH, "verify.verify_after_sign_hash");
    assert_eq!(PREFER_COMPRESS_MANIFESTS, "core.prefer_compress_manifests");
    assert_eq!(MERKLE_TREE_MAX_LEAVES, "core.merkle_tree_max_leaves");
}

#[test]
fn last_value_of_a_setting_wins() {
    let settings = Settings::new()
        .with_value(MERKLE_TREE_MAX_LEAVES, SettingValue::Number(7))
        .with_value(PREFER_COMPRESS_MANIFESTS, SettingValue::Flag(false))
        .with_value(MERKLE_TREE_MAX_LEAVES, SettingValue::Number(1));
    assert_eq!(settings.value(MERKLE_TREE_MAX_LEAVES), Some(SettingValue::Number(1)));
    assert_eq!(settings.value(PREFER_COMPRESS_MANIFESTS), Some(SettingValue::Flag(false)));
    assert_eq!(settings.value(VERIFY_AFTER_SIGN), None);
}

#[test]
fn verifying_builder_has_both_flags_and_no_anchors() {
    let b = verifying_builder(true, false);
    assert_eq!(b.settings.value(VERIFY_AFTER_SIGN), Some(SettingValue::Flag(true)));
    assert_eq!(b.settings.value(VERIFY_AFTER_SIGN_HASH), Some(SettingValue::Flag(false)));
    assert!(!b.settings.trust_anchors);
    assert_eq!(b.definition, DEFINITION);
}

#[test]
fn builder_targets_can_be_set() {
    let mut b = Builder::from_settings(Settings::new()).with_definition("{}");
    assert_eq!(b.definition, "{}");
    b.set_no_embed(true);
    b.set_remote_url("https://example.invalid/manifest.c2pa");
    assert!(b.no_embed);
    assert_eq!(b.remote_url.as_deref(), Some("https://example.invalid/manifest.c2pa"));
}

#[test]
fn ladder_files_are_numbered() {
    let (sources, outputs) = paths(12);
    assert_eq!(sources.len(), 12);
    assert_eq!(sources[0], "source0.mp4");
    assert_eq!(sources[11], "source11.mp4");
    assert_eq!(outputs[10], "output10.mp4");
    let mut all: Vec<&String> = sources.iter().chain(&outputs).collect();
    all.sort();
    all.dedup();
    assert_eq!(all.len(), 24);
    assert_eq!(audio_paths(2).0, vec!["audio0.m4a", "audio1.m4a"]);
    assert_eq!(audio_paths(2).1, vec!["signed_audio0.m4a", "signed_audio1.m4a"]);
    assert_eq!(audio_first_path(3, "mp4"), "audio_first3.mp4");
    assert_eq!(paths(0), (vec![], vec![]));
}

#[test]
fn text_is_compared_by_characters() {
    assert!(same_text("caf\u{e9}.mp4", "caf\u{e9}.mp4"));
    assert!(!same_text("caf\u{e9}.mp4", "cafe\u{301}.mp4"));
    assert!(!same_text("case.mp4", "CASE.mp4"));
    assert!(contains_text("abc", ""));
    assert!(contains_text("abc", "bc"));
    assert!(!contains_text("abc", "cb"));
    assert!(!contains_text("a", "aa"));
    assert!(has_suffix("caf\u{e9}.mp4", "\u{e9}.mp4"));
    assert!(has_suffix("abc", ""));
    assert!(!has_suffix("mp4", ".mp4"));
    assert_eq!(strip_prefix("xmp.iid:x", "xmp.iid:"), Some("x"));
    assert_eq!(strip_prefix("xmp.iid", "xmp.iid:"), None);
    assert_eq!(strip_prefix("\u{e9}x", "e"), None);
    assert_eq!(numbered("a", usize::MAX, "b"), format!("a{}b", usize::MAX));
    assert_eq!(numbered("", 1009, ""), "1009");
}

fn claim() -> PartialClaim {
    PartialClaim {
        assertions: vec![
            AssertionRef {
                url: "self#jumbf=c2pa.assertions/c2pa.actions".to_string(),
                hash: vec![1; 32],
            },
            AssertionRef {
                url: "self#jumbf=c2pa.assertions/c2pa.hash.bmff.v3".to_string(),
                hash: (0..32).collect(),
            },
            AssertionRef {
                url: "self#jumbf=c2pa.assertions/c2pa.hash.bmff.v3__1".to_string(),
                hash: vec![3; 32],
            },
        ],
    }
}

#[test]
fn endorsement_holds_the_hash_of_the_first_binding() {
    assert_eq!(Dynamic.label(), "org.example.ladder-test");
    assert_eq!(Dynamic.reserve_size().unwrap(), 64);
    let DynamicAssertionContent::Cbor(content) =
        Dynamic.content("any", Some(64), &claim()).unwrap();
    let mut expected = vec![0xa2, 0x64, b'h', b'a', b's', b'h', 0x58, 0x20];
    expected.extend(0..32);
    expected.extend([0x63, b'p', b'a', b'd', 0x73]);
    expected.extend([b'x'; 19]);
    assert_eq!(content, expected);
    assert_eq!(content.len(), Dynamic.reserve_size().unwrap());
}

#[test]
fn endorsement_is_held_to_the_final_binding() {
    let assertions = claim().assertions;
    assert_eq!(find_binding(&assertions), Some(1));
    let good = Endorsement { hash: ByteBuf::from((0..32).collect::<Vec<u8>>()) };
    assert!(check_endorsement(&good, &assertions));
    let other = Endorsement { hash: ByteBuf::from(vec![3; 32]) };
    assert!(!check_endorsement(&other, &assertions));
    let none = assertions[..1].to_vec();
    assert_eq!(find_binding(&none), None);
    assert!(!check_endorsement(&good, &none));
}

struct Fixed;

impl Signer for Fixed {
    type Alg = &'static str;
    type Assertion = ();

    fn sign(&self, data: &[u8]) -> Result<Vec<u8>, SignError> {
        if data.is_empty() {
            Err(SignError::Other("nothing to sign".to_string()))
        } else {
            Ok(data.iter().rev().cloned().collect())
        }
    }

    fn alg(&self) -> &'static str {
        "es256"
    }

    fn certs(&self) -> Result<Vec<Vec<u8>>, SignError> {
        Ok(vec![vec![1, 2], vec![3]])
    }

    fn reserve_size(&self) -> usize {
        1024
    }

    fn dynamic_assertions(&self) -> Vec<()> {
        vec![]
    }
}

#[test]
fn dynamic_signer_signs_as_the_inner_one_and_adds_the_endorsement() {
    let signer = DynamicSigner(Fixed);
    assert_eq!(signer.sign(&[1, 2, 3]).unwrap(), vec![3, 2, 1]);
    assert!(signer.sign(&[]).is_err());
    assert_eq!(signer.alg(), "es256");
    assert_eq!(signer.certs().unwrap(), vec![vec![1, 2], vec![3]]);
    assert_eq!(signer.reserve_size(), 1024);
    assert_eq!(signer.dynamic_assertions(), vec![Dynamic]);
}

#[test]
fn instance_identifier_is_a_random_uuid() {
    let good = "xmp.iid:550e8400-e29b-41d4-a716-446655440000";
    assert_eq!(check_instance(false, good), Ok(()));
    assert_eq!(check_instance(true, good), Err(InstanceFault::Compressed));
    assert_eq!(
        check_instance(false, "550e8400-e29b-41d4-a716-446655440000"),
        Err(InstanceFault::NoPrefix)
    );
    assert_eq!(check_instance(false, "xmp.iid:550e8400"), Err(InstanceFault::NoUuid));
    assert_eq!(
        check_instance(false, "xmp.iid:02f09a3f-1624-3b1d-8409-44eff7708208"),
        Err(InstanceFault::NotRandom)
    );
    let mut octets = [0u8; 16];
    assert_eq!(check_uuid(Some(octets)), Err(InstanceFault::NotRandom));
    octets[6] = 0x4f;
    assert_eq!(check_uuid(Some(octets)), Ok(()));
    assert_eq!(check_uuid(None), Err(InstanceFault::NoUuid));
}
