use amoeba_cli::args::Args;
use amoeba_cli::text;

fn tokens_of(line: &str) -> Vec<String> {
    let mut args = Args::new(line);
    let mut out = Vec::new();
    while let Some(token) = args.next() {
        out.push(token.to_string());
    }
    assert_eq!(args.next(), None);
    out
}

const SAMPLES: [&str; 14] = [
    "",
    " ",
    "   ",
    "led",
    "led on",
    "  led   on  ",
    "\tled\u{a0}on\u{3000}now\r\n",
    "rgb 0x10 0b11 255",
    "a\u{2003}b\u{85}c",
    "\u{e9}t\u{e9} \u{1f600} x",
    "one\ntwo\r\nthree",
    "one\n\ntwo\n",
    "tail\r",
    "\r\n\n\r",
];

#[test]
fn is_whitespace_agrees_with_std_on_every_char() {
    for u in 0..=0x10FFFFu32 {
        if let Some(c) = char::from_u32(u) {
            assert_eq!(text::is_whitespace(c), c.is_whitespace(), "U+{:04X}", u);
        }
    }
}

#[test]
fn width_of_agrees_with_std_on_every_char() {
    for u in 0..=0x10FFFFu32 {
        if let Some(c) = char::from_u32(u) {
            assert_eq!(text::width_of(c), c.len_utf8(), "U+{:04X}", u);
        }
    }
}

#[test]
fn str_eq_compares_texts() {
    assert!(text::str_eq("", ""));
    assert!(text::str_eq("help", "help"));
    assert!(!text::str_eq("help", "Help"));
    assert!(!text::str_eq("help", "hel"));
    assert!(!text::str_eq("hel", "help"));
    assert!(text::str_eq("\u{e9}t\u{e9}", "\u{e9}t\u{e9}"));
    assert!(!text::str_eq("\u{e9}", "e"));
}

#[test]
fn str_byte_len_counts_bytes() {
    assert_eq!(text::str_byte_len(""), 0);
    assert_eq!(text::str_byte_len("abc"), 3);
    assert_eq!(text::str_byte_len("\u{e9}\u{20ac}\u{1f600}"), 9);
}

#[test]
fn lines_agree_with_std() {
    for sample in SAMPLES {
        let want: Vec<&str> = sample.lines().collect();
        assert_eq!(text::lines(sample), want, "{:?}", sample);
    }
}

#[test]
fn lines_end_at_line_feeds() {
    assert_eq!(text::lines("a\nb"), vec!["a", "b"]);
    assert_eq!(text::lines("a\nb\n"), vec!["a", "b"]);
    assert_eq!(text::lines("a\r\nb\r\n"), vec!["a", "b"]);
    assert_eq!(text::lines("\n"), vec![""]);
    assert_eq!(text::lines("a\n\nb"), vec!["a", "", "b"]);
    assert_eq!(text::lines("a\rb"), vec!["a\rb"]);
    assert_eq!(text::lines("a\r\r\nb"), vec!["a\r", "b"]);
    assert!(text::lines("").is_empty());
}

#[test]
fn tokens_agree_with_std() {
    for sample in SAMPLES {
        let want: Vec<String> = sample.split_whitespace().map(|t| t.to_string()).collect();
        assert_eq!(tokens_of(sample), want, "{:?}", sample);
    }
}

#[test]
fn tokens_come_out_in_order_whatever_the_gaps() {
    assert_eq!(tokens_of("rgb 1 2 3"), vec!["rgb", "1", "2", "3"]);
    assert_eq!(tokens_of("  rgb\t1   2 \u{a0} 3 \n"), vec!["rgb", "1", "2", "3"]);
    assert_eq!(tokens_of("one"), vec!["one"]);
}

#[test]
fn blank_lines_hold_no_token() {
    assert!(tokens_of("").is_empty());
    assert!(tokens_of("   ").is_empty());
    assert!(tokens_of("\t\r\n").is_empty());
}
