use coda_memory::hugepage::{
    backing, checked_backing, checked_pool_free_bytes, describe, pool_can_fit, pool_free_bytes,
    Backing,
};

const MEMINFO: &str = "MemTotal:       65536000 kB\nHugePages_Total:      64\n\
HugePages_Free:       33\nHugepagesize:       2048 kB\n";

#[test]
fn pool_bytes_of_a_usual_meminfo() {
    assert_eq!(pool_free_bytes(Some(MEMINFO)), 33 * 2048 * 1024);
    assert_eq!(checked_pool_free_bytes(Some(MEMINFO)), Some(69_206_016));
}

#[test]
fn pool_without_fields_or_file_is_empty() {
    assert_eq!(pool_free_bytes(None), 0);
    assert_eq!(pool_free_bytes(Some("")), 0);
    assert_eq!(pool_free_bytes(Some("MemTotal: 1 kB\n")), 0);
}

#[test]
fn pool_page_size_falls_back_to_two_megabytes() {
    assert_eq!(pool_free_bytes(Some("HugePages_Free: 2")), 2 * 2048 * 1024);
    assert_eq!(pool_free_bytes(Some("HugePages_Free: 2\nHugepagesize: x kB")), 2 * 2048 * 1024);
    assert_eq!(pool_free_bytes(Some("HugePages_Free: two\nHugepagesize: 4 kB")), 0);
}

#[test]
fn pool_last_field_counts() {
    let text = "HugePages_Free: 9\r\nHugepagesize:\t1024 kBkB \nHugePages_Free: +3\n";
    assert_eq!(pool_free_bytes(Some(text)), 3 * 1024 * 1024);
}

#[test]
fn pool_beyond_the_machine_is_told_apart() {
    let text = "HugePages_Free: 18446744073709551615\nHugepagesize: 2 kB\n";
    assert_eq!(checked_pool_free_bytes(Some(text)), None);
    let text = "HugePages_Free: 18446744073709551616\nHugepagesize: 2 kB\n";
    assert_eq!(checked_pool_free_bytes(Some(text)), Some(0));
    let text = "HugePages_Free: 18014398509481984\nHugepagesize: 1 kB\n";
    assert_eq!(checked_pool_free_bytes(Some(text)), None);
}

#[test]
fn pool_fit_is_monotone() {
    assert!(pool_can_fit(Some(MEMINFO), 0));
    assert!(pool_can_fit(Some(MEMINFO), 69_206_015));
    assert!(pool_can_fit(Some(MEMINFO), 69_206_016));
    assert!(!pool_can_fit(Some(MEMINFO), 69_206_017));
    assert!(pool_can_fit(None, 0));
    assert!(!pool_can_fit(None, 1));
}

const SMAPS: &str = "10000000-10400000 rw-p 00000000 00:00 0 \n\
Size:               4096 kB\n\
KernelPageSize:        4 kB\n\
AnonHugePages:      2048 kB\n\
VmFlags: rd wr mr mw me ac \n\
20000000-20200000 rw-p 00000000 00:0f 12 /anon_hugepage (deleted)\n\
KernelPageSize:     2048 kB\n\
AnonHugePages:         0 kB\n\
30000000-30001000 rw-p 00000000 00:00 0 \n\
KernelPageSize:        4 kB\n\
AnonHugePages:         0 kB\n";

#[test]
fn backing_by_transparent_huge_pages() {
    assert_eq!(backing(Some(SMAPS), 0x1000_0000, 0x40_0000), Backing::Thp(50));
    assert_eq!(backing(Some(SMAPS), 0x1010_0000, 0x10_0000), Backing::Thp(100));
    assert_eq!(describe(Some(SMAPS), 0x1000_0000, 0x40_0000), "thp 50%");
    assert_eq!(describe(Some(SMAPS), 0x1010_0000, 0x10_0000), "thp 100%");
}

#[test]
fn backing_by_the_pool() {
    assert_eq!(backing(Some(SMAPS), 0x2000_0000, 0x20_0000), Backing::Hugetlb);
    assert_eq!(describe(Some(SMAPS), 0x2000_0000, 0x20_0000), "hugetlb");
    // One mapping of the pool among those that overlap is enough.
    assert_eq!(backing(Some(SMAPS), 0x1000_0000, 0x1020_0000), Backing::Hugetlb);
}

#[test]
fn backing_by_ordinary_pages() {
    assert_eq!(backing(Some(SMAPS), 0x3000_0000, 4096), Backing::FourK);
    assert_eq!(describe(Some(SMAPS), 0x3000_0000, 4096), "4k");
}

#[test]
fn backing_by_less_than_one_percent_is_not_ordinary() {
    let text = "1000-100000000 rw-p\nAnonHugePages: 4 kB\n";
    assert_eq!(backing(Some(text), 0x1000, 0x1000_0000), Backing::Thp(1));
    // One huge page in 256 MiB.
    let text = "10000000-20000000 rw-p\nKernelPageSize: 4 kB\nAnonHugePages: 2048 kB\n";
    assert_eq!(describe(Some(text), 0x1000_0000, 0x1000_0000), "thp 1%");
    let text = "10000000-20000000 rw-p\nKernelPageSize: 4 kB\nAnonHugePages: 0 kB\n";
    assert_eq!(describe(Some(text), 0x1000_0000, 0x1000_0000), "4k");
    // From one percent on, the share is rounded down.
    let text = "0-64000 rw-p\nAnonHugePages: 7 kB\n";
    assert_eq!(backing(Some(text), 0, 0x64000), Backing::Thp(1));
    let text = "0-64000 rw-p\nAnonHugePages: 8 kB\n";
    assert_eq!(backing(Some(text), 0, 0x64000), Backing::Thp(2));
}

#[test]
fn backing_by_large_base_pages_is_ordinary() {
    let with_page = |page: &str, huge: &str| {
        let text = format!(
            "10000000-10400000 rw-p\nKernelPageSize: {} kB\nAnonHugePages: {} kB\n",
            page, huge
        );
        backing(Some(text.as_str()), 0x1000_0000, 0x40_0000)
    };
    assert_eq!(with_page("16", "0"), Backing::FourK);
    assert_eq!(with_page("64", "0"), Backing::FourK);
    assert_eq!(with_page("2047", "0"), Backing::FourK);
    assert_eq!(with_page("x", "0"), Backing::FourK);
    assert_eq!(with_page("16", "2048"), Backing::Thp(50));
    assert_eq!(with_page("2048", "0"), Backing::Hugetlb);
    assert_eq!(with_page("1048576", "0"), Backing::Hugetlb);
}

#[test]
fn backing_is_not_changed_by_mappings_outside() {
    let a = "10000000-10200000 rw-p\nAnonHugePages: 1024 kB\n";
    let b = "10200000-10400000 rw-p\nAnonHugePages: 1024 kB\n";
    let outside = "20000000-20200000 rw-p\nKernelPageSize: 2048 kB\nAnonHugePages: 2048 kB\n";
    let before = "fe00000-10000000 rw-p\nKernelPageSize: 2048 kB\nAnonHugePages: 2048 kB";
    for text in [
        format!("{}{}", a, b),
        format!("{}{}{}", a, outside, b),
        format!("{}{}{}", outside, a, b),
        format!("{}{}{}", a, b, outside),
        format!("{}{}{}", a, b, before),
        format!("{}\n{}{}{}", before, a, outside, b),
    ] {
        assert_eq!(backing(Some(text.as_str()), 0x1000_0000, 0x40_0000), Backing::Thp(50));
    }
}

#[test]
fn backing_unknown() {
    assert_eq!(backing(Some(SMAPS), 0x1000_0000, 0), Backing::Unknown);
    assert_eq!(backing(None, 0x1000_0000, 4096), Backing::Unknown);
    assert_eq!(backing(Some(SMAPS), 0x5000_0000, 4096), Backing::Unknown);
    assert_eq!(backing(Some(""), 0x5000_0000, 4096), Backing::Unknown);
    assert_eq!(describe(None, 1, 1), "unknown");
}

#[test]
fn backing_ends_are_exclusive() {
    let text = "1000-2000 rw-p\nAnonHugePages: 4 kB\n";
    assert_eq!(backing(Some(text), 0x2000, 0x1000), Backing::Unknown);
    assert_eq!(backing(Some(text), 0xfff, 1), Backing::Unknown);
    assert_eq!(backing(Some(text), 0x1fff, 0x1001), Backing::Thp(99));
    assert_eq!(backing(Some(text), 0xfff, 0x1000), Backing::Thp(100));
}

#[test]
fn backing_fields_belong_to_the_mapping_above() {
    let text = "AnonHugePages: 4 kB\n1000-2000 rw-p\n9000-a000 rw-p\nAnonHugePages: 4 kB\n";
    assert_eq!(backing(Some(text), 0x1000, 0x1000), Backing::FourK);
}

#[test]
fn backing_headers_are_told_from_fields() {
    // A capital letter in front makes no mapping, nor does a dash without a space.
    assert_eq!(backing(Some("A000-B000 rw-p\n"), 0xa000, 0x1000), Backing::Unknown);
    assert_eq!(backing(Some("a000-b000\n"), 0xa000, 0x1000), Backing::Unknown);
    assert_eq!(backing(Some("a000-B000 \n"), 0xa000, 0x1000), Backing::FourK);
    assert_eq!(backing(Some("x-b000 \n"), 0xa000, 0x1000), Backing::FourK);
}

#[test]
fn backing_beyond_the_machine_is_told_apart() {
    assert_eq!(checked_backing(Some(SMAPS), usize::MAX, 1), None);
    assert_eq!(checked_backing(None, usize::MAX, 1), Some(Backing::Unknown));
    // A mapping that ends before it starts.
    assert_eq!(checked_backing(Some("1800-1400 rw-p\n"), 0x1000, 0x1000), None);
    let text = "1000-2000 rw-p\nAnonHugePages: 18446744073709551615 kB\n";
    assert_eq!(checked_backing(Some(text), 0x1000, 0x1000), None);
    let text = "0-ffffffffffffffff rw-p\nAnonHugePages: 18014398509481983 kB\n";
    assert_eq!(checked_backing(Some(text), 0, usize::MAX), None);
}

#[test]
fn labels_are_distinct() {
    let all = [
        Backing::Hugetlb,
        Backing::Thp(1),
        Backing::Thp(11),
        Backing::Thp(100),
        Backing::FourK,
        Backing::Unknown,
    ];
    for (i, a) in all.iter().enumerate() {
        for (j, b) in all.iter().enumerate() {
            assert_eq!(i == j, a.label() == b.label());
        }
    }
    assert_eq!(Backing::Thp(11).label(), "thp 11%");
}
