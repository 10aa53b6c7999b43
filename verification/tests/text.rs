use cc_switch::text::{
    contains, decimal, ends_with, is_whitespace, join, parse_u32, replace, same_text, split,
    starts_with, to_ascii_lowercase, trim, trim_start,
};

const SAMPLES: [&str; 12] = [
    "",
    " ",
    "a",
    " a b\t",
    "\u{a0}x\u{3000}",
    "\u{85}\u{2028}",
    "\u{200b}a\u{200b}",
    "Ab_Z.é",
    "aXbXXc",
    "XX",
    "1.2.3_4",
    "ÀÉ Ü",
];

#[test]
fn trimming_is_that_of_the_standard_library() {
    for s in SAMPLES {
        assert_eq!(trim(s), s.trim());
        assert_eq!(trim_start(s), s.trim_start());
    }
}

#[test]
fn whitespace_is_that_of_the_standard_library() {
    for n in 0..0x11000u32 {
        if let Some(c) = char::from_u32(n) {
            assert_eq!(is_whitespace(c), c.is_whitespace(), "{n:x}");
        }
    }
}

#[test]
fn lower_case_is_that_of_the_standard_library() {
    for s in SAMPLES {
        assert_eq!(to_ascii_lowercase(s), s.to_ascii_lowercase());
    }
}

#[test]
fn searching_is_that_of_the_standard_library() {
    for s in SAMPLES {
        for p in SAMPLES {
            assert_eq!(starts_with(s, p), s.starts_with(p));
            assert_eq!(ends_with(s, p), s.ends_with(p));
            assert_eq!(contains(s, p), s.contains(p));
            assert_eq!(same_text(s, p), s == p);
        }
    }
}

#[test]
fn splitting_is_that_of_the_standard_library() {
    for s in SAMPLES {
        for c in ['X', '.', '_', ' '] {
            assert_eq!(split(s, c), s.split(c).collect::<Vec<_>>());
        }
    }
}

#[test]
fn replacing_is_that_of_the_standard_library() {
    for s in SAMPLES {
        for p in ["X", "XX", "a", " "] {
            assert_eq!(replace(s, p, "<X>"), s.replace(p, "<X>"));
        }
    }
    assert_eq!(replace("aaa", "aa", "b"), "ba");
}

#[test]
fn joining_is_that_of_the_standard_library() {
    let none: Vec<String> = Vec::new();
    assert_eq!(join(&none, "; "), "");
    let list: Vec<String> = ["a", "", "c"].iter().map(|s| s.to_string()).collect();
    assert_eq!(join(&list, "; "), list.join("; "));
}

#[test]
fn numbers_are_read_and_written_as_by_the_standard_library() {
    for n in [0u64, 9, 10, 9229, 65535, u64::MAX] {
        assert_eq!(decimal(n), n.to_string());
    }
    for s in [
        "", "0", "+0", "+", "-1", "007", "4294967295", "4294967296", "99999999999999999999", "1a",
        "++1", " 1", "٣",
    ] {
        assert_eq!(parse_u32(s), s.parse::<u32>().ok(), "{s}");
    }
}
