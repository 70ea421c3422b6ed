use serde_bytes::ByteBuf;
use single_file_ladder::boxes::{BoxInfo, FileBoxes, FragmentEntry};
use single_file_ladder::index::check_index;
use single_file_ladder::ladder::{
    check_one_ladder, check_rung, check_rung_number, check_sensitivity, check_single_rung,
    judge_sensitivity, RungFault, SignedRung,
};
use single_file_ladder::merkle::{
    binding, check_maps, claimed_binding, confirmed_binding, copy_binding, forge_own, forge_sibling,
    has_map_count, same_maps, ActiveManifest, BindingFault, BmffHash, MerkleMap, Reading,
    ValidationState, BINDING_LABEL,
};

fn info(path: &str, offset: u64, size: u64) -> BoxInfo {
    BoxInfo { path: path.to_string(), offset, size }
}

/// A file with an index of the given version and fragments of a Merkle box of ten bytes and
/// media of thirty. Five bytes lie between the index and the first fragment.
fn indexed(version: u8, fragments: usize) -> (Vec<u8>, FileBoxes) {
    let width = if version == 1 { 8 } else { 4 };
    let size = 8 + 12 + 2 * width + 4 + 12 * fragments;
    let mut bytes = vec![0u8; 16];
    bytes.extend((size as u32).to_be_bytes());
    bytes.extend(*b"sidx");
    bytes.extend([version, 0, 0, 0]);
    bytes.extend([0; 8]);
    bytes.extend(vec![0; width]);
    bytes.extend(vec![0; width - 1]);
    bytes.push(5);
    bytes.extend([0, 0, 0, fragments as u8]);
    for _ in 0..fragments {
        bytes.extend(40u32.to_be_bytes());
        bytes.extend([0; 8]);
    }
    assert_eq!(bytes.len(), 16 + size);
    bytes.extend([0; 5]);
    let mut box_infos = vec![info("ftyp", 0, 16), info("sidx", 16, size as u64)];
    let mut merkle = vec![];
    let mut entries = vec![];
    for location in 0..fragments {
        let at = bytes.len() as u64;
        merkle.push(info("uuid", at, 10));
        box_infos.push(info("uuid", at, 10));
        box_infos.push(info("moof", at + 10, 8));
        box_infos.push(info("mdat", at + 18, 22));
        entries.push(FragmentEntry { unique_id: 1, local_id: 1, location });
        bytes.extend([0; 40]);
    }
    let boxes = FileBoxes {
        box_infos,
        manifest_bytes: Some(vec![7, 7]),
        manifest_box_offset: Some(4),
        manifest_box_bytes: Some(vec![0; 6]),
        first_aux_uuid_offset: merkle[0].offset,
        bmff_merkle: entries,
        bmff_merkle_box_infos: merkle,
    };
    (bytes, boxes)
}

fn map(unique_id: usize, hashes: &[u8]) -> MerkleMap {
    MerkleMap {
        unique_id,
        local_id: 1,
        count: hashes.len(),
        hashes: hashes.iter().map(|h| ByteBuf::from(vec![*h; 32])).collect(),
        init_hash: Some(ByteBuf::from(vec![9; 32])),
    }
}

fn hash(maps: Vec<MerkleMap>) -> BmffHash {
    BmffHash { hash: None, merkle: Some(maps), bmff_version: 2 }
}

fn three_maps() -> BmffHash {
    hash(vec![map(1, &[1, 2, 3]), map(2, &[4, 5, 6]), map(3, &[7])])
}

#[test]
fn rungs_share_the_manifest_and_are_numbered() {
    for version in [0, 1] {
        for (rung, fragments) in [3, 3, 1].iter().enumerate() {
            let (bytes, mut boxes) = indexed(version, *fragments);
            for entry in boxes.bmff_merkle.iter_mut() {
                entry.unique_id = rung + 1;
            }
            assert_eq!(check_rung(&bytes, &boxes, &[7, 7], rung, *fragments), Ok(()));
            let hash = three_maps();
            assert!(check_maps(&hash, &vec![3, 3, 1]));
            let map = &hash.merkle.as_ref().unwrap()[rung];
            assert_eq!(map.hashes.len(), boxes.bmff_merkle.len());
            assert!(boxes.bmff_merkle.iter().all(|e| e.unique_id == map.unique_id));
        }
    }
}

#[test]
fn each_rung_fault_is_told() {
    let (bytes, boxes) = indexed(0, 3);
    assert_eq!(check_rung(&bytes, &boxes, &[7], 0, 3), Err(RungFault::Manifest));
    assert_eq!(check_rung(&bytes, &boxes, &[7, 7], 0, 2), Err(RungFault::FragmentCount));
    assert_eq!(check_rung(&bytes, &boxes, &[7, 7], 1, 3), Err(RungFault::Numbering));
    assert_eq!(check_rung(&bytes, &boxes, &[7, 7], usize::MAX, 3), Err(RungFault::Numbering));
    let mut moved = boxes.clone();
    moved.first_aux_uuid_offset += 1;
    assert_eq!(check_rung(&bytes, &moved, &[7, 7], 0, 3), Err(RungFault::AuxiliaryOffset));
    moved.bmff_merkle_box_infos.clear();
    assert_eq!(check_rung(&bytes, &moved, &[7, 7], 0, 3), Err(RungFault::AuxiliaryOffset));
    let mut local = boxes.clone();
    local.bmff_merkle[2].local_id = 2;
    assert_eq!(check_rung(&bytes, &local, &[7, 7], 0, 3), Err(RungFault::Numbering));
    let mut place = boxes.clone();
    place.bmff_merkle[1].location = 2;
    assert_eq!(check_rung(&bytes, &place, &[7, 7], 0, 3), Err(RungFault::Numbering));
    let mut unsigned = boxes.clone();
    unsigned.manifest_bytes = None;
    assert_eq!(check_rung(&bytes, &unsigned, &[7, 7], 0, 3), Err(RungFault::Manifest));
    let mut longer = boxes;
    let last = longer.box_infos.len() - 1;
    longer.box_infos[last].size += 1;
    assert_eq!(check_rung(&bytes, &longer, &[7, 7], 0, 3), Err(RungFault::Index));
}

#[test]
fn a_file_without_an_index_needs_none() {
    let (bytes, mut boxes) = indexed(0, 3);
    boxes.box_infos.retain(|b| b.path != "sidx");
    assert_eq!(check_rung(&bytes[..4], &boxes, &[7, 7], 0, 3), Ok(()));
}

#[test]
fn index_must_agree_with_every_fragment() {
    for version in [0, 1] {
        let (bytes, boxes) = indexed(version, 3);
        let sidx = &boxes.box_infos[1];
        let merkle = &boxes.bmff_merkle_box_infos;
        assert!(check_index(&bytes, sidx, merkle, &boxes.box_infos));
        let references = 16 + 8 + 12 + if version == 1 { 16 } else { 8 } + 4;
        let mut size = bytes.clone();
        size[references + 12 + 3] += 1;
        assert!(!check_index(&size, sidx, merkle, &boxes.box_infos));
        let mut kind = bytes.clone();
        kind[references + 24] |= 0x80;
        assert!(!check_index(&kind, sidx, merkle, &boxes.box_infos));
        let mut first = bytes.clone();
        first[references - 5] += 1;
        assert!(!check_index(&first, sidx, merkle, &boxes.box_infos));
        assert!(!check_index(&bytes[..references + 26], sidx, merkle, &boxes.box_infos));
        assert!(!check_index(&bytes[..references - 5], sidx, merkle, &boxes.box_infos));
        assert!(!check_index(&bytes[..20], sidx, merkle, &boxes.box_infos));
        let fewer = merkle[..2].to_vec();
        assert!(!check_index(&bytes, sidx, &fewer, &boxes.box_infos));
        let far = info("sidx", u64::MAX - 3, 9);
        assert!(!check_index(&bytes, &far, merkle, &boxes.box_infos));
        let wide = info("sidx", 16, u64::MAX);
        assert!(!check_index(&bytes, &wide, merkle, &boxes.box_infos));
    }
}

#[test]
fn rung_numbers_go_past_the_width_boundary() {
    let maps: Vec<MerkleMap> = (0..25).map(|i| map(i + 1, &[1])).collect();
    let hash = hash(maps);
    for index in 0..25 {
        let (_, mut boxes) = indexed(0, 1);
        boxes.bmff_merkle[0].unique_id = index + 1;
        assert!(check_rung_number(&boxes, &hash, &[7, 7], index, 25));
        assert!(!check_rung_number(&boxes, &hash, &[7, 7], index + 1, 25));
        assert!(!check_rung_number(&boxes, &hash, &[7], index, 25));
        assert!(!check_rung_number(&boxes, &hash, &[7, 7], index, 24));
    }
    let (_, mut boxes) = indexed(0, 1);
    boxes.bmff_merkle.clear();
    assert!(!check_rung_number(&boxes, &hash, &[7, 7], 0, 25));
    assert!(check_maps(&hash, &vec![1; 25]));
}

#[test]
fn maps_describe_the_ladder() {
    let good = three_maps();
    assert!(check_maps(&good, &vec![3, 3, 1]));
    assert!(!check_maps(&good, &vec![3, 3, 2]));
    assert!(!check_maps(&good, &vec![3, 3]));
    assert!(has_map_count(&good, 3));
    assert!(!has_map_count(&good, 2));
    let mut swapped = three_maps();
    swapped.merkle.as_mut().unwrap().swap(0, 1);
    assert!(!check_maps(&swapped, &vec![3, 3, 1]));
    let mut short = three_maps();
    short.merkle.as_mut().unwrap()[1].hashes.pop();
    assert!(!check_maps(&short, &vec![3, 3, 1]));
    let flat = BmffHash { hash: Some(ByteBuf::from(vec![1])), merkle: None, bmff_version: 3 };
    assert!(!check_maps(&flat, &vec![]));
    assert!(!has_map_count(&flat, 0));
}

#[test]
fn forging_own_hashes_shows_and_forging_a_sibling_leaves_own_ones() {
    for rung in 0..3 {
        let mut own = three_maps();
        forge_own(&mut own, rung);
        let maps = own.merkle.as_ref().unwrap();
        assert_eq!(maps[rung].hashes[0], ByteBuf::from(vec![0; 32]));
        assert_eq!(maps[rung].init_hash, Some(ByteBuf::from(vec![9; 32])));
        assert!(!same_maps(&own, &three_maps()));

        let mut sibling = three_maps();
        forge_sibling(&mut sibling, rung);
        let maps = sibling.merkle.as_ref().unwrap();
        let other = &maps[(rung + 1) % 3];
        assert_eq!(other.hashes[0], ByteBuf::from(vec![0; 32]));
        assert_eq!(other.init_hash, Some(ByteBuf::from(vec![0; 32])));
        let before = three_maps();
        let before = before.merkle.as_ref().unwrap();
        assert_eq!(maps[rung].hashes, before[rung].hashes);
        assert_eq!(maps[rung].init_hash, before[rung].init_hash);
        assert_eq!(maps[(rung + 2) % 3].hashes, before[(rung + 2) % 3].hashes);
    }
    assert!(judge_sensitivity(false, true, false));
    assert!(!judge_sensitivity(true, true, false));
    assert!(!judge_sensitivity(false, false, false));
    assert!(!judge_sensitivity(false, true, true));
}

#[test]
fn a_rung_answers_to_its_own_media_and_hashes_only() {
    let (bytes, boxes) = indexed(0, 3);
    let hash = three_maps();
    for rung in 0..3 {
        let own = hash.merkle.as_ref().unwrap()[rung].hashes[0].clone();
        let by_own_map = |h: &BmffHash, b: &[u8]| {
            h.merkle.as_ref().unwrap()[rung].hashes[0] == own && b == bytes.as_slice()
        };
        assert!(check_sensitivity(&hash, &bytes, &boxes, rung, by_own_map));
        let by_all_maps =
            |h: &BmffHash, b: &[u8]| same_maps(h, &three_maps()) && b == bytes.as_slice();
        assert!(!check_sensitivity(&hash, &bytes, &boxes, rung, by_all_maps));
        let by_map_alone = |h: &BmffHash, _: &[u8]| h.merkle.as_ref().unwrap()[rung].hashes[0] == own;
        assert!(!check_sensitivity(&hash, &bytes, &boxes, rung, by_map_alone));
        let by_media_alone = |_: &BmffHash, b: &[u8]| b == bytes.as_slice();
        assert!(!check_sensitivity(&hash, &bytes, &boxes, rung, by_media_alone));
    }
    assert!(same_maps(&hash, &three_maps()));
}

#[test]
fn rungs_of_one_ladder_share_their_maps() {
    let ladder = |hashes: Vec<BmffHash>| -> Vec<SignedRung> {
        hashes.into_iter().map(|hash| SignedRung { boxes: indexed(0, 1).1, hash }).collect()
    };
    let good = ladder(vec![three_maps(), three_maps(), three_maps()]);
    assert!(check_one_ladder(&good, &[7, 7]));
    assert!(!check_one_ladder(&good, &[7]));
    assert!(!check_one_ladder(&ladder(vec![three_maps(), three_maps()]), &[7, 7]));
    let mut other = three_maps();
    forge_own(&mut other, 2);
    assert!(!check_one_ladder(&ladder(vec![three_maps(), three_maps(), other]), &[7, 7]));
    assert!(check_one_ladder(&ladder(vec![]), &[7, 7]));
}

#[test]
fn editing_a_binding_leaves_the_next_one_alone() {
    let verify = |_: &BmffHash| true;
    let mut first = binding(reading(ValidationState::Valid), verify).unwrap();
    let copy = copy_binding(&first);
    forge_own(&mut first, 0);
    let second = binding(reading(ValidationState::Valid), verify).unwrap();
    assert!(same_maps(&second, &copy));
    assert_eq!(second.bmff_version, copy.bmff_version);
    assert_eq!(second.hash, copy.hash);
    assert!(!same_maps(&second, &first));
}

#[test]
fn merkle_maps_are_compared_by_contents() {
    assert!(same_maps(&three_maps(), &three_maps()));
    let mut version = three_maps();
    version.set_bmff_version(3);
    assert!(same_maps(&version, &three_maps()));
    let mut init = three_maps();
    init.merkle.as_mut().unwrap()[2].init_hash = None;
    assert!(!same_maps(&init, &three_maps()));
    let mut local = three_maps();
    local.merkle.as_mut().unwrap()[2].local_id = 2;
    assert!(!same_maps(&local, &three_maps()));
    let mut fewer = three_maps();
    fewer.merkle.as_mut().unwrap().pop();
    assert!(!same_maps(&fewer, &three_maps()));
    let flat = BmffHash { hash: None, merkle: None, bmff_version: 3 };
    let other = BmffHash { hash: None, merkle: None, bmff_version: 2 };
    assert!(same_maps(&flat, &other));
    assert!(!same_maps(&flat, &three_maps()));
}

#[test]
fn a_single_rung_is_the_file_signed_alone() {
    let (rung, mut rung_boxes) = indexed(0, 1);
    rung_boxes.manifest_box_offset = Some(4);
    rung_boxes.manifest_box_bytes = Some(rung[4..10].to_vec());
    let mut alone = rung[..4].to_vec();
    alone.extend([1, 2, 3]);
    alone.extend(&rung[10..]);
    let mut alone_boxes = rung_boxes.clone();
    alone_boxes.manifest_box_bytes = Some(vec![1, 2, 3]);
    let one = hash(vec![map(1, &[1])]);
    assert!(check_single_rung(&alone, &alone_boxes, &one, &rung, &rung_boxes, &one));
    let two = hash(vec![map(1, &[2])]);
    assert!(!check_single_rung(&alone, &alone_boxes, &one, &rung, &rung_boxes, &two));
    let mut changed = alone.clone();
    let last = changed.len() - 1;
    changed[last] ^= 1;
    assert!(!check_single_rung(&changed, &alone_boxes, &one, &rung, &rung_boxes, &one));
    changed = alone.clone();
    changed[0] ^= 1;
    assert!(!check_single_rung(&changed, &alone_boxes, &one, &rung, &rung_boxes, &one));
    alone_boxes.manifest_box_offset = None;
    assert!(!check_single_rung(&alone, &alone_boxes, &one, &rung, &rung_boxes, &one));
}

fn reading(state: ValidationState) -> Reading {
    Reading { state, active: Some(ActiveManifest { binding: Some(three_maps()) }) }
}

#[test]
fn binding_is_confirmed_in_version_three() {
    assert_eq!(BINDING_LABEL, "c2pa.hash.bmff.v3");
    for state in [ValidationState::Valid, ValidationState::Trusted] {
        let hash = binding(reading(state), |h: &BmffHash| h.bmff_version == 3).unwrap();
        assert_eq!(hash.bmff_version, 3);
        assert!(same_maps(&hash, &three_maps()));
    }
}

#[test]
fn each_binding_fault_is_told() {
    let yes = |_: &BmffHash| true;
    let fault = |r: Reading| binding(r, yes).unwrap_err();
    assert_eq!(fault(reading(ValidationState::Invalid)), BindingFault::InvalidState);
    let none = Reading { state: ValidationState::Valid, active: None };
    assert_eq!(fault(none), BindingFault::NoManifest);
    let unbound = Reading {
        state: ValidationState::Valid,
        active: Some(ActiveManifest { binding: None }),
    };
    assert_eq!(fault(unbound), BindingFault::NoBinding);
    let mismatch = binding(reading(ValidationState::Valid), |_: &BmffHash| false);
    assert_eq!(mismatch.unwrap_err(), BindingFault::HashMismatch);
    let invalid = binding(reading(ValidationState::Invalid), |_: &BmffHash| panic!("not asked"));
    assert_eq!(invalid.unwrap_err(), BindingFault::InvalidState);
    let claimed = claimed_binding(reading(ValidationState::Valid)).unwrap();
    assert_eq!(claimed.bmff_version, 3);
    assert!(confirmed_binding(three_maps(), true).is_ok());
    assert_eq!(
        confirmed_binding(three_maps(), false).unwrap_err(),
        BindingFault::HashMismatch
    );
}
