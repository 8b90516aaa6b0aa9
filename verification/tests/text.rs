use chart_render::text::{blank, chars_of, contains, decimal, split_words, trim};

#[test]
fn blanks_are_white_space() {
    for u in 0..=0x10ffffu32 {
        if let Some(c) = char::from_u32(u) {
            assert_eq!(blank(c), c.is_whitespace(), "{:x}", u);
        }
    }
}

fn split_like_std(s: &str) {
    let expected: Vec<String> = s.split_whitespace().map(|w| w.to_string()).collect();
    assert_eq!(split_words(s), expected);
}

#[test]
fn words_are_split_at_blanks() {
    split_like_std("");
    split_like_std("   ");
    split_like_std("one");
    split_like_std(" one\ttwo \u{3000}three\n");
    split_like_std("veryfast  p4 balanced");
    split_like_std("caf\u{e9}\u{a0}\u{2003}\u{1f3b5}x");
    assert_eq!(split_words("a b"), vec!["a".to_string(), "b".to_string()]);
}

#[test]
fn separated_texts_keep_their_words() {
    let a = " -c:a copy";
    let b = "-f mov ";
    let mut both = split_words(a);
    both.extend(split_words(b));
    assert_eq!(split_words(&format!("{} {}", a, b)), both);
}

#[test]
fn trimming_removes_outer_blanks_only() {
    for s in ["", " ", "x", "  a b \r\n", "\u{85}\"p q\"\u{2028}"] {
        assert_eq!(trim(s), s.trim());
    }
}

#[test]
fn searching_finds_every_place() {
    let listing = " DEV.LS h264 (encoders: libx264 h264_nvenc )";
    let chars = chars_of(listing);
    for p in ["", "h264_nvenc", " DEV", "nvenc )", "hevc", "h264_nvenc ) "] {
        assert_eq!(contains(&chars, p), listing.contains(p));
    }
    assert!(!contains(&chars_of("abc"), "abcd"));
    assert!(contains(&chars_of("aab"), "ab"));
}

#[test]
fn numbers_are_written_in_decimal() {
    for n in [0, 7, 10, 60, 1080, 48000, 1000000000, u32::MAX] {
        assert_eq!(decimal(n), n.to_string());
    }
}

#[test]
fn characters_come_in_order() {
    assert_eq!(chars_of("x\u{e9}z"), vec!['x', '\u{e9}', 'z']);
}
