use single_file_ladder::boxes::{
    can_be_shortened, damage_manifest, find_manifest_box, first_with_path, shortened, strip,
    tamper_media, BoxInfo, FileBoxes,
};
use single_file_ladder::bytes::{flip_byte, holds_bytes, read_be, same_bytes, same_files};

fn info(path: &str, offset: u64, size: u64) -> BoxInfo {
    BoxInfo { path: path.to_string(), offset, size }
}

fn file(box_infos: Vec<BoxInfo>) -> FileBoxes {
    FileBoxes {
        box_infos,
        manifest_bytes: None,
        manifest_box_offset: None,
        manifest_box_bytes: None,
        first_aux_uuid_offset: 0,
        bmff_merkle: vec![],
        bmff_merkle_box_infos: vec![],
    }
}

fn two_fragments() -> (Vec<u8>, Vec<BoxInfo>) {
    let data: Vec<u8> = (0..40).collect();
    let boxes = vec![
        info("ftyp", 0, 4),
        info("moov", 4, 6),
        info("sidx", 10, 5),
        info("moof", 15, 3),
        info("mdat", 18, 7),
        info("moof", 25, 2),
        info("mdat", 27, 9),
        info("mfra", 36, 4),
    ];
    (data, boxes)
}

#[test]
fn shortened_ends_with_the_first_fragment_and_drops_indexes() {
    let (data, boxes) = two_fragments();
    assert!(can_be_shortened(&data, &boxes));
    let output = shortened(&data, &boxes);
    let expected: Vec<u8> = (0..10).chain(15..25).collect();
    assert_eq!(output, expected);
}

#[test]
fn shortened_drops_a_trailing_index_of_a_single_fragment() {
    let data: Vec<u8> = (0..20).collect();
    let boxes = vec![info("moof", 0, 5), info("mdat", 5, 10), info("mfra", 15, 5)];
    let expected: Vec<u8> = (0..15).collect();
    assert_eq!(shortened(&data, &boxes), expected);
}

#[test]
fn shortened_of_no_boxes_is_empty() {
    assert!(shortened(&[1, 2, 3], &vec![]).is_empty());
}

#[test]
fn shortening_a_shortened_file_changes_nothing() {
    let (data, boxes) = two_fragments();
    let output = shortened(&data, &boxes);
    let again = vec![
        info("ftyp", 0, 4),
        info("moov", 4, 6),
        info("moof", 10, 3),
        info("mdat", 13, 7),
    ];
    assert_eq!(shortened(&output, &again), output);
}

#[test]
fn only_kept_boxes_must_lie_in_the_file() {
    let data: Vec<u8> = (0..10).collect();
    let far_index = vec![info("ftyp", 0, 10), info("sidx", 10, 99)];
    assert!(can_be_shortened(&data, &far_index));
    let far_second = vec![info("moof", 0, 5), info("moof", 5, 99)];
    assert!(can_be_shortened(&data, &far_second));
    let far_first = vec![info("moof", 0, 11)];
    assert!(!can_be_shortened(&data, &far_first));
    let beyond_numbers = vec![info("ftyp", u64::MAX, u64::MAX)];
    assert!(!can_be_shortened(&data, &beyond_numbers));
}

#[test]
fn first_box_is_found_by_path() {
    let (_, boxes) = two_fragments();
    assert_eq!(first_with_path(&boxes, "mdat"), Some(4));
    assert_eq!(first_with_path(&boxes, "uuid"), None);
}

#[test]
fn tampering_flips_the_last_byte_of_the_first_media_box() {
    let (data, boxes) = two_fragments();
    let boxes = file(boxes);
    let mut bytes = data.clone();
    tamper_media(&mut bytes, &boxes);
    assert_eq!(bytes[24], 24 ^ 1);
    assert_eq!(bytes[..24], data[..24]);
    assert_eq!(bytes[25..], data[25..]);
    tamper_media(&mut bytes, &boxes);
    assert_eq!(bytes, data);
}

#[test]
fn strip_takes_the_manifest_box_out() {
    let mut boxes = file(vec![]);
    let bytes: Vec<u8> = (0..10).collect();
    assert_eq!(find_manifest_box(&boxes, 10), None);
    boxes.manifest_box_offset = Some(3);
    assert_eq!(find_manifest_box(&boxes, 10), None);
    boxes.manifest_box_bytes = Some(vec![3, 4, 5, 6]);
    assert_eq!(find_manifest_box(&boxes, 10), Some((3, 7)));
    assert_eq!(find_manifest_box(&boxes, 7), Some((3, 7)));
    assert_eq!(find_manifest_box(&boxes, 6), None);
    assert_eq!(strip(&bytes, &boxes), (vec![0, 1, 2], vec![7, 8, 9]));
}

#[test]
fn damage_hits_the_last_byte_of_the_manifest_box() {
    let mut boxes = file(vec![]);
    boxes.manifest_box_offset = Some(3);
    boxes.manifest_box_bytes = Some(vec![3, 4, 5, 6]);
    let mut bytes: Vec<u8> = (0..10).collect();
    let parts = strip(&bytes, &boxes);
    damage_manifest(&mut bytes, &boxes);
    assert_eq!(strip(&bytes, &boxes), parts);
    assert_eq!(bytes, vec![0, 1, 2, 3, 4, 5, 7, 7, 8, 9]);
}

#[test]
fn byte_strings_are_compared_whole() {
    assert!(same_bytes(&[], &[]));
    assert!(!same_bytes(&[1], &[1, 2]));
    assert!(!same_bytes(&[1, 2], &[1, 3]));
    assert!(holds_bytes(&Some(vec![1, 2]), &[1, 2]));
    assert!(!holds_bytes(&Some(vec![1]), &[1, 2]));
    assert!(!holds_bytes(&None, &[]));
    assert!(same_files(&vec![vec![1], vec![]], &vec![vec![1], vec![]]));
    assert!(!same_files(&vec![vec![1], vec![]], &vec![vec![], vec![1]]));
    assert!(!same_files(&vec![vec![1]], &vec![vec![1], vec![]]));
}

#[test]
fn numbers_are_read_big_endian() {
    assert_eq!(read_be(&[]), 0);
    assert_eq!(read_be(&[0x12, 0x34]), 0x1234);
    assert_eq!(read_be(&[0xff; 8]), u64::MAX);
    let mut bytes = vec![0x80, 0x81];
    flip_byte(&mut bytes, 1);
    assert_eq!(bytes, vec![0x80, 0x80]);
}
