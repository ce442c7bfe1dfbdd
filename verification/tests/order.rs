//! Byte order and prefixes.

use regolith_ffi::order::{comes_before, same_bytes};
use regolith_ffi::text::{decimal_text, hex_text};
use regolith_ffi::{bounds_from, prefix_end, RegolithIterOptions, ScanDirection};

#[test]
fn bytes_are_ordered_as_slices_are() {
    let samples: [&[u8]; 8] = [b"", b"\0", b"a", b"a\0", b"ab", b"b", b"\xff", b"\xff\xff"];
    for a in samples {
        for b in samples {
            assert_eq!(comes_before(a, b), a < b, "{a:?} {b:?}");
            assert_eq!(same_bytes(a, b), a == b, "{a:?} {b:?}");
        }
    }
}

#[test]
fn prefix_end_is_the_successor_of_the_prefix() {
    assert_eq!(prefix_end(b"k"), Some(b"l".to_vec()));
    assert_eq!(prefix_end(b"ab"), Some(b"ac".to_vec()));
    assert_eq!(prefix_end(b"a\xff\xff"), Some(b"b".to_vec()));
    assert_eq!(prefix_end(b"\xff\xff"), None);
    assert_eq!(prefix_end(b""), None);
}

#[test]
fn bounds_take_the_prefix_before_the_range() {
    let none = bounds_from(None);
    assert_eq!((none.start, none.end, none.reverse, none.keys_only), (None, None, false, false));

    let mut opts = RegolithIterOptions {
        prefix: Some(b"k"),
        prefix_len: 1,
        start: Some(b"a"),
        start_len: 1,
        end: Some(b"z"),
        end_len: 1,
        reverse: 2,
        keys_only: 0,
    };
    let bounds = bounds_from(Some(&opts));
    assert_eq!(bounds.direction(), ScanDirection::Reverse);
    assert!(!bounds.keys_only);
    assert!(bounds.contains(b"k") && bounds.contains(b"k\xff\xff") && !bounds.contains(b"l"));
    assert!(!bounds.contains(b"j"));
    assert_eq!((bounds.start, bounds.end), (Some(b"k".to_vec()), Some(b"l".to_vec())));

    // An empty prefix is no prefix, and so is an absent one.
    opts.prefix = Some(b"");
    opts.prefix_len = 0;
    opts.reverse = 0;
    opts.keys_only = 1;
    let bounds = bounds_from(Some(&opts));
    assert_eq!(bounds.direction(), ScanDirection::Forward);
    assert!(bounds.keys_only);
    assert!(bounds.contains(b"a") && bounds.contains(b"y") && !bounds.contains(b"z"));
    opts.start = None;
    opts.start_len = 0;
    assert_eq!(bounds_from(Some(&opts)).start, None);
}

#[test]
fn numbers_are_written_out() {
    for n in [0, 7, 10, 99, 100, 1234567890, u64::MAX] {
        assert_eq!(decimal_text(n), format!("{n}"));
        assert_eq!(hex_text(n), format!("{n:#x}"));
    }
}
