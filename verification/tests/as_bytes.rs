use rustvox::as_bytes::AsBytes;

#[test]
fn test_as_bytes() {
    let a = vec![1i32, 1000i32, 0i32, 1i32];
    let b = a.as_bytes();
    println!("{:?}", b);
}

#[test]
fn as_bytes_has_four_bytes_for_each_i32() {
    let a = vec![1i32, 1000i32, 0i32, 1i32];
    let b = a.as_bytes();
    assert_eq!(b.len(), 16);
    assert_eq!(&b[0..4], &1i32.to_ne_bytes());
    assert_eq!(&b[4..8], &1000i32.to_ne_bytes());
    assert_eq!(&b[8..12], &0i32.to_ne_bytes());
    assert_eq!(&b[12..16], &1i32.to_ne_bytes());
}

#[test]
fn as_bytes_of_indices_is_not_the_indices_themselves() {
    let a: Vec<u32> = vec![0, 1, 2, 0, 2, 3];
    let b = a.as_bytes();
    assert_eq!(b.len(), 24);
    let back: Vec<u32> =
        b.chunks(4).map(|c| u32::from_ne_bytes([c[0], c[1], c[2], c[3]])).collect();
    assert_eq!(back, a);
}

#[test]
fn as_bytes_has_two_bytes_for_each_u16() {
    let a: Vec<u16> = vec![0x0102, 0xffff, 7];
    let b = a.as_bytes();
    assert_eq!(b.len(), 6);
    assert_eq!(&b[0..2], &0x0102u16.to_ne_bytes());
    assert_eq!(&b[2..4], &[0xff, 0xff]);
}

#[test]
fn as_bytes_of_bytes_and_of_nothing() {
    let a: Vec<u8> = vec![9, 8, 7];
    assert_eq!(a.as_bytes(), &[9u8, 8, 7][..]);
    let e: Vec<u32> = Vec::new();
    assert_eq!(e.as_bytes().len(), 0);
}
