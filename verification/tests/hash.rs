use asciinema::hash::fnv1a_128;

#[test]
fn digest() {
    assert_eq!(
        fnv1a_128("Hello World!".as_bytes()),
        0xd2d42892ede872031d2593366229c2d2
    );

    assert_eq!(
        fnv1a_128("Hello world!".as_bytes()),
        0x3c94fff9ede872031d95566a45770eb2
    );

    assert_eq!(fnv1a_128("🦄🌈".as_bytes()), 0xa25841ae4659905b36cb0d359fad39f);
}

#[test]
fn digest_of_empty_input_is_the_offset_basis() {
    assert_eq!(fnv1a_128(&[]), 144066263297769815596495629667062367629);
}
