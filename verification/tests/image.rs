use commons::image::difference;

// The images of these cases are 4x4 and 3x3 RGB images, given here by their bytes of image data.

fn similarity_4x4_a() -> Vec<u8> {
    (0..48u8).map(|i| i.wrapping_mul(5)).collect()
}

fn similarity_4x4_b() -> Vec<u8> {
    let mut bytes = similarity_4x4_a();
    bytes[7] += 1;
    bytes
}

#[test]
fn same() {
    // given
    let a = similarity_4x4_a();

    // when
    let result = difference(&a, &a).unwrap();

    // then
    assert_eq!(result, 0);
}

#[test]
fn smallest_difference() {
    // given
    let a = similarity_4x4_a();
    let b = similarity_4x4_b();

    // when
    let result = difference(&a, &b).unwrap();

    // then
    assert_eq!(result, 1);
}

#[test]
fn largest_difference() {
    // given
    let black = vec![0u8; 48];
    let white = vec![255u8; 48];

    // when
    let result = difference(&black, &white).unwrap();

    // then
    assert_eq!(result, 12240);
}

#[test]
fn different_size() {
    // given
    let black = similarity_4x4_a();
    let white = vec![0u8; 27];

    // when
    let result = difference(&black, &white);

    // then
    assert!(result.is_err());
}

#[test]
fn different_size_message() {
    assert_eq!(
        difference(&[1, 2, 3], &[1, 2]),
        Err("Image data is not same size, 3 != 2".to_string())
    );
}
