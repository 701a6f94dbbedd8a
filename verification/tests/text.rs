use tetra_pd::ipv4::Ipv4Addr;
use tetra_pd::text::{append_dotted, ascii_alphanumeric, starts_with, trim, with_number};

#[test]
fn decimals() {
    for n in [0u64, 7, 10, 99, 100, 1024, 4_294_967_295, u64::MAX] {
        assert_eq!(with_number("n=", n), format!("n={n}"));
    }
}

#[test]
fn dotted_addresses() {
    for (a, b, c, d) in [(0, 0, 0, 0), (192, 168, 100, 1), (255, 255, 255, 255)] {
        let mut s = String::from("at ");
        append_dotted(&mut s, Ipv4Addr::new(a, b, c, d));
        assert_eq!(s, format!("at {a}.{b}.{c}.{d}"));
    }
}

#[test]
fn white_space_is_that_of_unicode() {
    for n in 0..=0x10_ffffu32 {
        if let Some(c) = char::from_u32(n) {
            let s = c.to_string();
            assert_eq!(trim(&s), s.trim(), "U+{n:04X}");
        }
    }
}

#[test]
fn trimming_takes_both_ends_only() {
    for s in ["", " ", " a b ", "a", "\u{3000}\u{e9} \u{e9}\u{2028}", "\t\n"] {
        assert_eq!(trim(s), s.trim());
    }
}

#[test]
fn prefixes() {
    for (s, p) in [("http://x", "http://"), ("http:/", "http://"), ("", ""), ("\u{e9}a", "\u{e9}")] {
        assert_eq!(starts_with(s, p), s.starts_with(p));
    }
}

#[test]
fn alphanumerics() {
    for s in ["", "LROP1", "a-b", "\u{e9}", "z0Z"] {
        assert_eq!(ascii_alphanumeric(s), s.chars().all(|c| c.is_ascii_alphanumeric()));
    }
}
