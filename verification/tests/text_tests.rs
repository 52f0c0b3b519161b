use savitri_masternode::bytes::bytes_equal;
use savitri_masternode::bytes::comes_before;
use savitri_masternode::bytes::is_zero;
use savitri_masternode::bytes::push_u128;
use savitri_masternode::bytes::push_u32;
use savitri_masternode::bytes::push_u64;
use savitri_masternode::bytes::same_array;
use savitri_masternode::bytes::starts_with;
use savitri_masternode::bytes::to_array32;
use savitri_masternode::bytes::to_array64;
use savitri_masternode::clock::unix_millis;
use savitri_masternode::clock::unix_seconds;
use savitri_masternode::search::contains_text;
use savitri_masternode::search::sorted;
use savitri_masternode::text::equal_ignoring_ascii_case;
use savitri_masternode::text::find_word;
use savitri_masternode::text::lowered_contains;
use savitri_masternode::text::parse_u64;
use savitri_masternode::text::push_decimal;
use savitri_masternode::text::push_padded;
use savitri_masternode::text::replace_word;
use savitri_masternode::text::same_text;
use savitri_masternode::text::split_lines;
use savitri_masternode::text::split_once;
use savitri_masternode::text::split_words;
use savitri_masternode::text::strip_prefix;
use savitri_masternode::text::text_contains;
use savitri_masternode::text::to_chars;
use savitri_masternode::text::trim;
use savitri_masternode::text::trim_end;

#[test]
fn numbers_are_written_and_read() {
    let mut out = String::new();
    push_decimal(&mut out, 0);
    push_decimal(&mut out, u64::MAX);
    push_padded(&mut out, 42, 5);
    assert_eq!(out, "01844674407370955161500042");
    assert_eq!(parse_u64("18446744073709551615"), Some(u64::MAX));
    assert_eq!(parse_u64("18446744073709551616"), None);
    assert_eq!(parse_u64("+7"), Some(7));
    assert_eq!(parse_u64("007"), Some(7));
    assert_eq!(parse_u64(""), None);
    assert_eq!(parse_u64("+"), None);
    assert_eq!(parse_u64("-7"), None);
}

#[test]
fn texts_are_searched() {
    assert!(same_text("ab", "ab"));
    assert!(!same_text("ab", "abc"));
    assert!(equal_ignoring_ascii_case("FaLse", "fAlsE"));
    assert!(!equal_ignoring_ascii_case("\u{e9}", "\u{c9}"));
    assert!(lowered_contains("MemPoolSync", "mempool"));
    assert!(text_contains("a/p2p/b", "/p2p/"));
    assert!(!text_contains("a/p2p", "/p2p/"));
    assert_eq!(find_word("xxaa", "aa"), Some(2));
    assert_eq!(find_word("xx", "aa"), None);
    assert_eq!(replace_word("aXaXa", "X", "yy"), "ayyayya");
    assert_eq!(replace_word("aaa", "aa", "b"), "ba");
}

#[test]
fn texts_are_cut() {
    assert_eq!(split_once("a@b@c", '@'), Some(("a", "b@c")));
    assert_eq!(split_once("abc", '@'), None);
    assert_eq!(trim_end("a//", '/'), "a");
    assert_eq!(strip_prefix("0xff", "0x"), Some("ff"));
    assert_eq!(strip_prefix("ff", "0x"), None);
    assert_eq!(trim(" \t a b \n"), "a b");
    assert_eq!(trim("\u{3000}x\u{3000}"), "x");
    assert_eq!(split_words(&to_chars("  a  bc ")), vec![vec!['a'], vec!['b', 'c']]);
    assert_eq!(split_lines("a\r\nb\n").len(), 2);
    assert_eq!(split_lines("a\r\nb\n")[0], vec!['a']);
}

#[test]
fn bytes_are_written_with_the_least_first() {
    let mut out = Vec::new();
    push_u32(&mut out, 258);
    push_u64(&mut out, 3);
    push_u128(&mut out, 4);
    assert_eq!(out.len(), 28);
    assert_eq!(&out[..6], &[2, 1, 0, 0, 3, 0]);
    assert_eq!(out[12], 4);
}

#[test]
fn bytes_are_compared() {
    assert!(bytes_equal(b"ab", b"ab"));
    assert!(!bytes_equal(b"ab", b"a"));
    assert!(same_array(&[1u8; 4], &[1u8; 4]));
    assert!(starts_with(b"abc", b"ab"));
    assert!(!starts_with(b"a", b"ab"));
    assert!(is_zero(&[0; 3]));
    assert!(!is_zero(&[0, 1]));
    assert!(comes_before(b"a", b"ab"));
    assert!(comes_before(b"ab", b"b"));
    assert!(!comes_before(b"b", b"b"));
    assert_eq!(to_array32(&[7; 32]), [7; 32]);
    assert_eq!(to_array64(&[7; 64]), [7; 64]);
}

#[test]
fn lists_are_searched_and_sorted() {
    let list = vec!["a".to_string(), "b".to_string()];
    assert!(contains_text(&list, "b"));
    assert!(!contains_text(&list, "c"));
    assert_eq!(sorted(&[3, 1, 2, 1]), vec![1, 1, 2, 3]);
}

#[test]
fn the_clock_reads_the_present() {
    let seconds = unix_seconds();
    let millis = unix_millis();
    assert!(seconds > 1_600_000_000);
    assert!(millis / 1000 >= seconds);
    assert!(millis / 1000 - seconds < 60);
}
