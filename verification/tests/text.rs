use nginx_logs::number::{decimal_text, parse_u16};
use nginx_logs::text::{
    before_char, chars_of, find_char, find_text, is_only, is_white_space, next_word, skip_chars,
    trim, trim_end, trim_start, CharSet,
};

#[test]
fn white_space_is_that_of_char() {
    for code in 0..=0x10ffff_u32 {
        if let Some(c) = char::from_u32(code) {
            assert_eq!(is_white_space(c), c.is_whitespace(), "U+{:04X}", code);
        }
    }
}

#[test]
fn char_sets_hold_their_characters() {
    assert!(CharSet::WhiteSpace.contains('\t'));
    assert!(!CharSet::WhiteSpace.contains('x'));
    assert!(CharSet::LineEnd.contains('\n'));
    assert!(CharSet::LineEnd.contains('\r'));
    assert!(!CharSet::LineEnd.contains(' '));
    assert!(CharSet::Slash.contains('/'));
    assert!(!CharSet::Slash.contains('\\'));
}

#[test]
fn trimming_removes_the_set_at_the_ends_only() {
    let samples = ["", " ", "  a b ", "\u{a0}x\u{3000}", "a", "\t\n", " \u{e9}t\u{e9} "];
    for s in samples {
        assert_eq!(trim(s, CharSet::WhiteSpace), s.trim());
        assert_eq!(trim_start(s, CharSet::WhiteSpace), s.trim_start());
        assert_eq!(trim_end(s, CharSet::WhiteSpace), s.trim_end());
    }
    assert_eq!(trim_end("line \r\n\r\n", CharSet::LineEnd), "line ");
    assert_eq!(trim_end("//a//", CharSet::Slash), "//a");
}

#[test]
fn searching_counts_characters() {
    assert_eq!(find_char("\u{e9}a\"b\"", '"'), Some(2));
    assert_eq!(find_char("abc", '"'), None);
    assert_eq!(find_text("\u{e9}\u{e9}key=1 key=2", "key="), Some(2));
    assert_eq!(find_text("aab", "ab"), Some(1));
    assert_eq!(find_text("ab", "abc"), None);
    assert_eq!(find_text("xabx", "ax"), None);
    assert_eq!(find_text("ab", ""), Some(0));
    assert_eq!(find_text("", ""), Some(0));
    assert_eq!(find_text("xyz", "z"), Some(2));
}

#[test]
fn parts_of_a_text() {
    assert_eq!(before_char("a,b,c", ','), "a");
    assert_eq!(before_char(",b", ','), "");
    assert_eq!(before_char("abc", ','), "abc");
    assert_eq!(skip_chars("\u{e9}\u{e8}abc", 2), "abc");
    assert_eq!(skip_chars("abc", 3), "");
    assert!(is_only("-", '-'));
    assert!(!is_only("--", '-'));
    assert!(!is_only("", '-'));
    assert_eq!(chars_of("a\u{1f600}"), vec!['a', '\u{1f600}']);
}

#[test]
fn the_next_word_is_the_first_between_white_space() {
    for s in ["", "   ", "200 416", "  200", "a", "\u{a0}x\u{2003}y", "\n\tlast"] {
        assert_eq!(next_word(s), s.split_whitespace().next());
    }
}

#[test]
fn numbers_read_as_the_standard_library_reads_them() {
    let samples = [
        "", "+", "-", "0", "7", "+7", "++7", "-7", "-0", "007", "200", "65535", "65536", "99999",
        "000000000000000065535", "100000000000000000000000", "6553\u{661}", "1 ", " 1", "1x", "x1",
        "0x10", "1_000", "+065536",
    ];
    for s in samples {
        assert_eq!(parse_u16(s), s.parse::<u16>().ok(), "{:?}", s);
    }
}

#[test]
fn every_number_reads_back() {
    for n in 0..=u16::MAX {
        let text = decimal_text(n as u64);
        assert_eq!(text, n.to_string());
        assert_eq!(parse_u16(&text), Some(n));
    }
    assert_eq!(decimal_text(u64::MAX), u64::MAX.to_string());
    assert_eq!(decimal_text(1_000_000_007), "1000000007");
}
