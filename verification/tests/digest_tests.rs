use atproto_verify::digest::{compute_key_depth, count_leading_zero_bits};

#[test]
fn leading_zero_bits_of_all_zero_digest() {
    assert_eq!(count_leading_zero_bits(&[0u8; 32]), 256);
}

#[test]
fn leading_zero_bits_stop_at_first_set_bit() {
    let mut digest = [0u8; 32];
    digest[1] = 0x10;
    assert_eq!(count_leading_zero_bits(&digest), 11);
}

#[test]
fn key_depth_is_at_most_128() {
    assert!(compute_key_depth(b"app.bsky.feed.post/3k2yihcrp6f2c") <= 128);
}
