use perfcheck_lint::text::after_last;
use perfcheck_lint::text::byte_offset;
use perfcheck_lint::text::chars_of;
use perfcheck_lint::text::checked_byte_len;
use perfcheck_lint::text::eq_str;
use perfcheck_lint::text::find_char;
use perfcheck_lint::text::find_str;
use perfcheck_lint::text::find_str_from;
use perfcheck_lint::text::is_whitespace;
use perfcheck_lint::text::line_spans;
use perfcheck_lint::text::lower;
use perfcheck_lint::text::matches_str_at;
use perfcheck_lint::text::normalized_no_ws;
use perfcheck_lint::text::parse_u32;
use perfcheck_lint::text::piece;
use perfcheck_lint::text::push_decimal;
use perfcheck_lint::text::split_once;
use perfcheck_lint::text::split_spans;
use perfcheck_lint::text::starts_with;
use perfcheck_lint::text::string_of;
use perfcheck_lint::text::strip_prefix;
use perfcheck_lint::text::strip_prefixes;
use perfcheck_lint::text::strip_trailing;
use perfcheck_lint::text::trim;
use perfcheck_lint::text::trim_end;
use perfcheck_lint::text::trim_start;

fn cs(s: &str) -> Vec<char> {
    s.chars().collect()
}

fn st(s: &[char]) -> String {
    s.iter().collect()
}

fn lines(s: &str) -> Vec<String> {
    let text = cs(s);
    line_spans(&text).iter().map(|span| st(piece(&text, span))).collect()
}

fn fields(s: &str, sep: char) -> Vec<String> {
    let text = cs(s);
    split_spans(&text, sep).iter().map(|span| st(piece(&text, span))).collect()
}

#[test]
fn chars_and_strings_round_trip() {
    let text = chars_of("héllo, wörld");
    assert_eq!(text, cs("héllo, wörld"));
    assert_eq!(string_of(&text), "héllo, wörld");
    assert_eq!(string_of(&[]), "");
}

#[test]
fn trims_unicode_white_space() {
    assert_eq!(st(trim(&cs("  \t x y \r\n"))), "x y");
    assert_eq!(st(trim(&cs("\u{a0}\u{2003}x\u{3000}\u{85}"))), "x");
    assert_eq!(st(trim_start(&cs("  x  "))), "x  ");
    assert_eq!(st(trim_end(&cs("  x  "))), "  x");
    assert_eq!(st(trim(&cs(" \u{200b} "))), "\u{200b}");
    assert_eq!(st(trim(&cs("   "))), "");
    assert_eq!(st(trim(&cs(""))), "");
}

#[test]
fn white_space_is_what_the_standard_library_says() {
    for code in 0u32..0x3100 {
        if let Some(c) = char::from_u32(code) {
            assert_eq!(is_whitespace(c), c.is_whitespace(), "U+{code:04X}");
        }
    }
}

#[test]
fn finds_the_first_occurrence() {
    let text = cs("a += b += c");
    assert_eq!(find_str(&text, "+="), Some(2));
    assert_eq!(find_str_from(&text, "+=", 3), Some(7));
    assert_eq!(find_str_from(&text, "+=", 8), None);
    assert_eq!(find_str(&text, "-="), None);
    assert_eq!(find_str(&text, ""), Some(0));
    assert_eq!(find_str(&cs(""), ""), Some(0));
    assert_eq!(find_str(&cs("ab"), "abc"), None);
    assert_eq!(find_char(&text, 'b'), Some(5));
    assert_eq!(find_char(&text, 'z'), None);
}

#[test]
fn matches_at_an_index() {
    let text = cs("x.clone()");
    assert!(matches_str_at(&text, ".clone", 1));
    assert!(!matches_str_at(&text, ".clone", 0));
    assert!(matches_str_at(&text, "", 9));
    assert!(!matches_str_at(&text, "", 10));
    assert!(!matches_str_at(&text, "()x", 7));
    assert!(starts_with(&text, &cs("x.")));
    assert!(!starts_with(&text, &cs("x.clone()!")));
    assert!(eq_str(&text, "x.clone()"));
    assert!(!eq_str(&text, "x.clone("));
    assert!(!eq_str(&text, "x.clone())"));
}

#[test]
fn strips_prefixes_and_suffixes() {
    assert_eq!(st(strip_prefixes(&cs("let let x"), "let ")), "x");
    assert_eq!(st(strip_prefixes(&cs("letx"), "let ")), "letx");
    assert_eq!(st(strip_trailing(&cs("x;;;"), ';')), "x");
    assert_eq!(st(strip_trailing(&cs(";"), ';')), "");
    assert_eq!(strip_prefix(&cs("mut x"), "mut ").map(st), Some("x".to_string()));
    assert_eq!(strip_prefix(&cs("mutx"), "mut ").map(st), None);
    assert_eq!(st(after_last(&cs("self.data.items"), '.')), "items");
    assert_eq!(st(after_last(&cs("items"), '.')), "items");
    assert_eq!(st(after_last(&cs("items."), '.')), "");
}

#[test]
fn splits_once_at_the_first_separator() {
    let text = cs("a = b = c");
    let (left, right) = split_once(&text, '=').expect("has =");
    assert_eq!(st(left), "a ");
    assert_eq!(st(right), " b = c");
    assert!(split_once(&cs("abc"), '=').is_none());
}

#[test]
fn lines_follow_the_line_feeds() {
    assert_eq!(lines(""), Vec::<String>::new());
    assert_eq!(lines("a"), vec!["a"]);
    assert_eq!(lines("a\n"), vec!["a"]);
    assert_eq!(lines("a\nb"), vec!["a", "b"]);
    assert_eq!(lines("a\r\nb\r\n"), vec!["a", "b"]);
    assert_eq!(lines("\n"), vec![""]);
    assert_eq!(lines("a\n\nb"), vec!["a", "", "b"]);
    assert_eq!(lines("a\rb\n"), vec!["a\rb"]);
    assert_eq!(lines("a\r"), vec!["a\r"]);
    assert_eq!(lines("\r\n"), vec![""]);
    assert_eq!(lines("a\r\r\n"), vec!["a\r"]);
    for sample in ["", "a", "a\n", "\n\n", "a\r\nb", "x\ry\r\n\r\nz\r", "one\ntwo\n\nfour"] {
        let expected: Vec<String> = sample.lines().map(String::from).collect();
        assert_eq!(lines(sample), expected, "{sample:?}");
    }
}

#[test]
fn fields_follow_the_separators() {
    assert_eq!(fields("", '\t'), vec![""]);
    assert_eq!(fields("a", '\t'), vec!["a"]);
    assert_eq!(fields("a\tb", '\t'), vec!["a", "b"]);
    assert_eq!(fields("a\t\tb\t", '\t'), vec!["a", "", "b", ""]);
    assert_eq!(fields(",", ','), vec!["", ""]);
}

#[test]
fn lower_cases_ascii_only() {
    assert_eq!(st(&lower(&cs("Box<Dyn ÄB>"))), "box<dyn Äb>");
    assert_eq!(st(&lower(&cs("AZaz@[`{"))), "azaz@[`{");
}

#[test]
fn removes_all_white_space() {
    assert_eq!(st(&normalized_no_ws(&cs(" a .b\t( c )\u{a0}"))), "a.b(c)");
}

#[test]
fn byte_offsets_count_utf8_bytes() {
    let text = cs("aé€😀z");
    assert_eq!(byte_offset(&text, 0), 0);
    assert_eq!(byte_offset(&text, 1), 1);
    assert_eq!(byte_offset(&text, 2), 3);
    assert_eq!(byte_offset(&text, 3), 6);
    assert_eq!(byte_offset(&text, 4), 10);
    assert_eq!(byte_offset(&text, 5), 11);
    assert_eq!(checked_byte_len(&text), Some("aé€😀z".len()));
    assert_eq!(checked_byte_len(&[]), Some(0));
}

#[test]
fn parses_unsigned_numbers() {
    assert_eq!(parse_u32(&cs("0")), Some(0));
    assert_eq!(parse_u32(&cs("128")), Some(128));
    assert_eq!(parse_u32(&cs("+7")), Some(7));
    assert_eq!(parse_u32(&cs("007")), Some(7));
    assert_eq!(parse_u32(&cs("4294967295")), Some(u32::MAX));
    assert_eq!(parse_u32(&cs("4294967296")), None);
    assert_eq!(parse_u32(&cs("99999999999999999999")), None);
    assert_eq!(parse_u32(&cs("")), None);
    assert_eq!(parse_u32(&cs("+")), None);
    assert_eq!(parse_u32(&cs("-1")), None);
    assert_eq!(parse_u32(&cs("1_000")), None);
    assert_eq!(parse_u32(&cs(" 1")), None);
    assert_eq!(parse_u32(&cs("12a")), None);
    assert_eq!(parse_u32(&cs("++1")), None);
    for sample in ["0", "42", "+42", "0042", "4294967295", "4294967296", "", "+", "-", "x", "1x"] {
        assert_eq!(parse_u32(&cs(sample)), sample.parse::<u32>().ok(), "{sample:?}");
    }
}

#[test]
fn writes_numbers_in_decimal() {
    for n in [0usize, 7, 10, 99, 100, 12345, usize::MAX] {
        let mut out = cs("n=");
        push_decimal(&mut out, n);
        assert_eq!(st(&out), format!("n={n}"));
    }
}
