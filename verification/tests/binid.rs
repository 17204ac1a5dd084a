use binid::{decode_id, encode_id, FirstResolution, Path};

fn path_of(segments: &[u8]) -> Path {
    let mut path = Path::new(FirstResolution::new(segments[0]).unwrap());
    for &segment in &segments[1..] {
        path.add_resolution(segment);
    }
    path
}

#[test]
fn it_should_encode_id_correctly() {
    let path = path_of(&[1, 2, 3, 4, 5, 1, 2]);

    assert_eq!(path.id(), 5477543);
}

#[test]
fn it_should_decode_id_correctly() {
    let path = Path::from_id(5477543);

    assert_eq!(path.resolutions(), &vec![1, 2, 3, 4, 5, 1, 2]);
}

#[test]
fn it_should_encode_id_with_different_resolution_bits() {
    let path = path_of(&[83, 2, 3, 4, 5, 1, 2]);

    assert_eq!(path.id(), 349410471);
}

#[test]
fn it_should_decode_id_with_different_resolution_bits() {
    let path = Path::from_id(349410471);

    assert_eq!(path.resolutions(), &vec![83, 2, 3, 4, 5, 1, 2]);
}

#[test]
fn encode_id_with_empty_resolutions() {
    let path = Path::from_id(0);

    assert_eq!(path.id(), 0);
}

#[test]
fn decode_id_with_empty_resolutions() {
    let path = Path::from_id(0);

    assert_eq!(path.resolutions(), &Vec::<u8>::new());
}

#[test]
fn encode_id_with_single_resolution() {
    let path = path_of(&[1]);

    assert_eq!(path.id(), 17);
}

#[test]
fn decode_id_with_single_resolution() {
    let path = Path::from_id(17);

    assert_eq!(path.resolutions(), &vec![1]);
}

#[test]
fn round_trip_preserves_in_range_segments() {
    let cases: [&[u8]; 5] = [
        &[0],
        &[127],
        &[127, 7, 7, 7, 7, 7, 7, 7, 7, 7, 7, 7, 7, 7, 7],
        &[64, 0, 7, 0, 7],
        &[5, 1, 2, 3, 4, 5, 6, 7, 0],
    ];
    for segments in cases {
        let path = path_of(segments);
        let decoded = Path::from_id(path.id());
        assert_eq!(decoded.resolutions().as_slice(), segments);
    }
}

#[test]
fn free_functions_round_trip() {
    let segments: Vec<u8> = vec![9, 3, 1, 4, 1, 5];
    assert_eq!(decode_id(encode_id(&segments)), segments);
}

#[test]
fn encode_id_of_empty_slice_is_zero() {
    assert_eq!(encode_id(&[]), 0);
}

#[test]
fn first_resolution_accepts_up_to_127() {
    assert_eq!(FirstResolution::new(0).unwrap().value(), 0);
    assert_eq!(FirstResolution::new(127).unwrap().value(), 127);
}

#[test]
fn first_resolution_rejects_above_127() {
    let error = FirstResolution::new(128).unwrap_err();
    assert_eq!(error.message(), "Resolution must be between 0 and 127");
    assert!(FirstResolution::new(255).is_err());
}

#[test]
fn first_resolution_converts_back_to_u8() {
    let first = FirstResolution::new(42).unwrap();
    assert_eq!(u8::from(first), 42);
}

#[test]
fn length_field_wraps_beyond_fifteen_segments() {
    // Sixteen segments: the 4-bit length field wraps to zero, so the
    // identifier decodes to the empty path. A known boundary of the
    // scheme, not an error.
    let path = path_of(&[1, 2, 3, 4, 5, 6, 7, 1, 2, 3, 4, 5, 6, 7, 1, 2]);
    let decoded = Path::from_id(path.id());
    assert_eq!(decoded.resolutions(), &Vec::<u8>::new());
}

#[test]
fn id_concat_concatenates_decimal_digits() {
    let path = path_of(&[1, 2, 3, 4, 5, 1, 2]);

    assert_eq!(path.id_concat(), 1234512);
}

#[test]
fn id_concat_handles_multi_digit_segments() {
    let path = path_of(&[83, 120, 9]);

    assert_eq!(path.id_concat(), 831209);
}

#[test]
fn id_concat_of_empty_path_is_zero() {
    let path = Path::from_id(0);

    assert_eq!(path.id_concat(), 0);
}

#[test]
fn id_concat_overflow_yields_zero() {
    // 125 followed by seven 255s spells a 24-digit number, far past
    // what a 64-bit word holds, so the concatenated form is 0.
    let path = path_of(&[125, 255, 255, 255, 255, 255, 255, 255]);

    assert_eq!(path.id_concat(), 0);
}

#[test]
fn id_concat_is_not_injective() {
    // [1, 23] and [12, 3] concatenate to the same digit string "123":
    // the documented ambiguity of the decimal form.
    let left = path_of(&[1, 23]);
    let right = path_of(&[12, 3]);

    assert_ne!(left.resolutions(), right.resolutions());
    assert_eq!(left.id_concat(), 123);
    assert_eq!(right.id_concat(), 123);
}
