use openshell_gpu::device_id::{cdi_nvidia_gpu_index, cdi_nvidia_gpu_suffix};
use openshell_gpu::text::{
    after_prefix, chars_of, comes_before, digit_of, is_white_space, parse_u64, same_text,
    trim_white_space,
};

const SAMPLES: [&str; 16] = [
    "",
    " ",
    "a",
    "b",
    "ab",
    "aB",
    "a b",
    " a b ",
    "\t\u{b}a\u{85}",
    "\u{a0}gpu\u{2003}\u{3000}",
    "\u{200b}gpu\u{feff}",
    "\u{e9}",
    "\u{ffff}",
    "\u{10000}",
    "nvidia.com/gpu=10",
    "nvidia.com/gpu=2",
];

#[test]
fn white_space_is_that_of_the_standard_library() {
    for code in 0..=0x10ffffu32 {
        if let Some(c) = char::from_u32(code) {
            assert_eq!(is_white_space(c), c.is_whitespace(), "{:?}", c);
        }
    }
}

#[test]
fn digits_are_those_of_the_standard_library() {
    for code in 0..=0x10ffffu32 {
        if let Some(c) = char::from_u32(code) {
            assert_eq!(digit_of(c), c.to_digit(10).map(u64::from), "{:?}", c);
        }
    }
}

#[test]
fn trimming_is_that_of_the_standard_library() {
    for s in SAMPLES {
        assert_eq!(trim_white_space(s), s.trim());
        assert_eq!(trim_white_space(trim_white_space(s)), s.trim());
    }
}

#[test]
fn order_is_that_of_the_standard_library() {
    for a in SAMPLES {
        for b in SAMPLES {
            assert_eq!(comes_before(a, b), a < b, "{:?} {:?}", a, b);
            assert_eq!(same_text(a, b), a == b, "{:?} {:?}", a, b);
        }
    }
}

#[test]
fn prefixes_are_those_of_the_standard_library() {
    for a in SAMPLES {
        for b in SAMPLES {
            assert_eq!(after_prefix(a, b), a.strip_prefix(b), "{:?} {:?}", a, b);
        }
    }
    assert_eq!(after_prefix("\u{10000}\u{e9}x", "\u{10000}"), Some("\u{e9}x"));
}

#[test]
fn characters_come_in_order() {
    assert_eq!(chars_of("a\u{e9}\u{10000}"), vec!['a', '\u{e9}', '\u{10000}']);
}

#[test]
fn numbers_are_those_of_the_standard_library() {
    for s in [
        "",
        "+",
        "-",
        "-0",
        "-1",
        "++1",
        "+-1",
        "1+",
        "0",
        "00",
        "+0",
        "007",
        "+42",
        " 1",
        "1 ",
        "1_000",
        "1.0",
        "0x10",
        "12a",
        "a12",
        "\u{661}",
        "9999999999",
        "18446744073709551615",
        "+18446744073709551615",
        "00018446744073709551615",
        "18446744073709551616",
        "18446744073709551620",
        "18446744073709551625",
        "99999999999999999999",
        "100000000000000000000000000000",
    ] {
        assert_eq!(parse_u64(s), s.parse::<u64>().ok(), "{:?}", s);
    }
    assert_eq!(parse_u64("+42"), Some(42));
    assert_eq!(parse_u64("18446744073709551615"), Some(u64::MAX));
    assert_eq!(parse_u64("18446744073709551616"), None);
}

#[test]
fn suffix_follows_the_nvidia_prefix() {
    assert_eq!(cdi_nvidia_gpu_suffix("nvidia.com/gpu=UUID-a"), Some("UUID-a"));
    assert_eq!(cdi_nvidia_gpu_suffix("nvidia.com/gpu="), Some(""));
    assert_eq!(cdi_nvidia_gpu_suffix("nvidia.com/gpu"), None);
    assert_eq!(cdi_nvidia_gpu_suffix("NVIDIA.com/gpu=0"), None);
    assert_eq!(cdi_nvidia_gpu_suffix("vendor.example/device=0"), None);
}

#[test]
fn index_is_a_numeric_suffix() {
    assert_eq!(cdi_nvidia_gpu_index("nvidia.com/gpu=10"), Some(10));
    assert_eq!(cdi_nvidia_gpu_index("nvidia.com/gpu=+7"), Some(7));
    assert_eq!(cdi_nvidia_gpu_index("nvidia.com/gpu=all"), None);
    assert_eq!(cdi_nvidia_gpu_index("nvidia.com/gpu="), None);
    assert_eq!(cdi_nvidia_gpu_index("nvidia.com/gpu=0:1"), None);
    assert_eq!(cdi_nvidia_gpu_index("vendor.example/device=0"), None);
}
