//! Patches.
use gcdgold::ppf::{
    Ppf2, PpfRecord, BLOCK_CHECK_OFFSET, BLOCK_CHECK_SIZE, PPF_DESCRIPTION, PPF_HEADER_SIZE,
};

fn target() -> Vec<u8> {
    (0..BLOCK_CHECK_OFFSET + BLOCK_CHECK_SIZE + 64)
        .map(|index| index as u8)
        .collect()
}

#[test]
fn ppf2_uses_the_standard_header_and_target_only_records() {
    let target = target();
    let patch = Ppf2::new(
        &target,
        vec![
            PpfRecord::new(7, vec![0xaa, 0xbb]).unwrap(),
            PpfRecord::new(0x1234, vec![0xcc]).unwrap(),
        ],
    )
    .unwrap();
    let encoded = patch.to_bytes().unwrap();

    assert_eq!(&encoded[..5], b"PPF20");
    assert_eq!(encoded[5], 1);
    assert_eq!(&encoded[6..56], &PPF_DESCRIPTION);
    assert_eq!(
        u32::from_le_bytes(encoded[56..60].try_into().unwrap()),
        target.len() as u32
    );
    assert_eq!(
        &encoded[60..PPF_HEADER_SIZE],
        &target[BLOCK_CHECK_OFFSET..BLOCK_CHECK_OFFSET + BLOCK_CHECK_SIZE]
    );
    assert_eq!(
        &encoded[PPF_HEADER_SIZE..],
        &[7, 0, 0, 0, 2, 0xaa, 0xbb, 0x34, 0x12, 0, 0, 1, 0xcc]
    );

    let decoded = Ppf2::from_bytes(&encoded).unwrap();
    decoded.validate_target(&target).unwrap();
    assert_eq!(decoded.records(), patch.records());
}

#[test]
fn ppf2_applies_overlapping_records_in_file_order() {
    let target = target();
    let patch = Ppf2::new(
        &target,
        vec![
            PpfRecord::new(10, vec![1, 2, 3]).unwrap(),
            PpfRecord::new(11, vec![8, 9]).unwrap(),
        ],
    )
    .unwrap();
    let mut output = target.clone();
    let touched = patch.apply(&mut output, 8).unwrap();

    assert_eq!(&output[10..13], &[1, 8, 9]);
    assert_eq!(touched.into_iter().collect::<Vec<_>>(), [1]);
}

#[test]
fn ppf2_rejects_truncated_records_and_wrong_targets() {
    let target = target();
    let patch = Ppf2::new(&target, vec![PpfRecord::new(10, vec![1, 2, 3]).unwrap()]).unwrap();
    let mut encoded = patch.to_bytes().unwrap();
    encoded.pop();
    assert!(Ppf2::from_bytes(&encoded).is_err());

    let mut wrong_size = target.clone();
    wrong_size.push(0);
    assert!(patch.validate_target(&wrong_size).is_err());

    let mut wrong_block = target;
    wrong_block[BLOCK_CHECK_OFFSET] ^= 0xff;
    assert!(patch.validate_target(&wrong_block).is_err());
}

#[test]
fn ppf2_rejects_zero_length_and_out_of_bounds_records() {
    assert!(PpfRecord::new(0, Vec::new()).is_err());
    assert!(PpfRecord::new(0, vec![0; 256]).is_err());

    let target = target();
    let patch = Ppf2::new(
        &target,
        vec![PpfRecord::new(target.len() as u32 - 1, vec![1, 2]).unwrap()],
    );
    assert!(patch.is_err());
}

#[test]
fn refusals_of_a_patch_say_why() {
    let target = target();
    let patch = Ppf2::new(&target, vec![PpfRecord::new(10, vec![1]).unwrap()]).unwrap();
    let encoded = patch.to_bytes().unwrap();

    assert_eq!(
        PpfRecord::new(0, Vec::new()).unwrap_err().message(),
        "PPF2 record length must be between 1 and 255 bytes"
    );
    assert_eq!(
        PpfRecord::new(u32::MAX, vec![1, 2]).unwrap_err().message(),
        "PPF2 record exceeds the 32-bit target range"
    );
    assert_eq!(
        Ppf2::from_bytes(&encoded[..PPF_HEADER_SIZE - 1])
            .unwrap_err()
            .message(),
        "PPF2 file is shorter than its header"
    );
    let mut magic = encoded.clone();
    magic[4] = b'1';
    assert_eq!(
        Ppf2::from_bytes(&magic).unwrap_err().message(),
        "unsupported PPF magic"
    );
    let mut method = encoded.clone();
    method[5] = 7;
    assert_eq!(
        Ppf2::from_bytes(&method).unwrap_err().message(),
        "unsupported PPF2 encoding method 7"
    );
    let mut empty = encoded.clone();
    empty[PPF_HEADER_SIZE + 4] = 0;
    assert_eq!(
        Ppf2::from_bytes(&empty).unwrap_err().message(),
        "PPF2 record has zero length"
    );
    assert_eq!(
        Ppf2::from_bytes(&encoded[..PPF_HEADER_SIZE + 3])
            .unwrap_err()
            .message(),
        "truncated PPF2 record header"
    );
    assert_eq!(
        Ppf2::new(&target[..100], Vec::new()).unwrap_err().message(),
        "PPF2 target is too small for the standard block check"
    );
    assert_eq!(
        patch
            .apply(&mut target.clone(), 0)
            .unwrap_err()
            .message(),
        "PPF2 sector size must not be zero"
    );
}

#[test]
fn a_patch_touches_nothing_but_its_records() {
    let target = target();
    let patch = Ppf2::new(&target, vec![PpfRecord::new(20, vec![7; 10]).unwrap()]).unwrap();
    let mut output = target.clone();
    let touched = patch.apply(&mut output, 16).unwrap();

    assert_eq!(touched.into_iter().collect::<Vec<_>>(), [1]);
    assert_eq!(&output[..20], &target[..20]);
    assert_eq!(&output[20..30], &[7; 10]);
    assert_eq!(&output[30..], &target[30..]);
}
