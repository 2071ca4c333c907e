use std::collections::hash_map::DefaultHasher;
use std::hash::Hasher;

use coda_memory::naming::{
    contains_nul, content_hash, object_name, temporary_name, DIRECTORY, PREFIX,
};
use coda_memory::placement::{fits, place, Placement, HUGE};

fn sampled(bytes: &[u8]) -> u64 {
    let mut h = DefaultHasher::new();
    h.write_usize(bytes.len());
    for line in bytes.chunks(64).step_by(64) {
        h.write(line);
    }
    h.finish()
}

#[test]
fn hash_is_taken_over_the_sample() {
    let data: Vec<u8> = (0..20_000u32).map(|i| (i * 7 % 253) as u8).collect();
    for len in [0, 1, 63, 64, 65, 4095, 4096, 4097, 4159, 4160, 4161, 8192, 12_345, 20_000] {
        assert_eq!(content_hash(&data[..len]), sampled(&data[..len]), "{}", len);
    }
}

#[test]
fn hash_ignores_what_is_not_sampled() {
    let data = vec![1u8; 10_000];
    let mut other = data.clone();
    other[64] = 2;
    other[4095] = 2;
    other[9_999] = 2;
    assert_eq!(content_hash(&data), content_hash(&other));
    other[4096] = 2;
    assert_ne!(content_hash(&data), content_hash(&other));
    assert_ne!(content_hash(&data), content_hash(&data[..9_999]));
}

#[test]
fn names_of_objects() {
    assert_eq!(DIRECTORY, "/dev/shm/");
    assert_eq!(PREFIX, "coda-w1-");
    assert_eq!(
        object_name("threat", 0xbeef, 300_000),
        "/dev/shm/coda-w1-threat-000000000000beef-300000"
    );
    assert_eq!(temporary_name("/dev/shm/x", 4242), "/dev/shm/x.tmp4242");
}

#[test]
fn names_differ_in_tag_hash_and_length() {
    let names = [
        object_name("a", 1, 10),
        object_name("a-", 1, 10),
        object_name("b", 1, 10),
        object_name("a", 2, 10),
        object_name("a", 1, 100),
        object_name("a-0000000000000001", 1, 10),
    ];
    for (i, a) in names.iter().enumerate() {
        for (j, b) in names.iter().enumerate() {
            assert_eq!(i == j, a == b);
        }
    }
}

#[test]
fn nul_is_found() {
    assert!(contains_nul("a\0b"));
    assert!(contains_nul("\0"));
    assert!(!contains_nul(""));
    assert!(!contains_nul("threat"));
}

#[test]
fn placement_in_the_middle_of_a_reservation() {
    let placement = place(0x7f00_0012_3000, 300_000);
    assert_eq!(
        placement,
        Placement {
            at: 0x7f00_0020_0000,
            head: 0xd_d000,
            tail_at: 0x7f00_0024_a000,
            tail: 0x7f00_0012_3000 + 300_000 + HUGE - 0x7f00_0024_a000,
        }
    );
    assert_eq!(placement.at % HUGE, 0);
}

#[test]
fn placement_of_an_aligned_reservation() {
    let placement = place(4 * HUGE, 4096);
    assert_eq!(placement, Placement { at: 4 * HUGE, head: 0, tail_at: 4 * HUGE + 4096, tail: HUGE });
}

#[test]
fn placement_at_the_end_of_the_address_range() {
    assert!(fits(0x1000, 1 << 30));
    assert!(!fits(usize::MAX - 4096, 1));
    assert!(!fits(0, usize::MAX));
    assert!(!fits(usize::MAX - 2 * HUGE, 2 * HUGE));
}
