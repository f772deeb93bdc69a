use pie::fnv::fnv1a;
use pie::format::{dec_of, filled, hex16_of, numbered, push_upper_hex, Env};
use pie::markup::MarkupFilter;
use pie::masks::{make_gap_row, make_prefix_row, make_ramp};
use pie::text::{
    chars_of, comes_before, holds, is_white, rsearch, search, string_of, trimmed, trimmed_end,
    trimmed_start, without,
};

fn cs(s: &str) -> Vec<char> {
    chars_of(s)
}

#[test]
fn white_space_is_what_char_says() {
    for c in '\0'..=char::MAX {
        assert_eq!(is_white(c), c.is_whitespace(), "{}", c as u32);
    }
}

#[test]
fn searching_and_trimming_agree_with_str() {
    for s in ["", "  a b ", "\u{3000}x\u{a0}", "no space", " \n\t "] {
        assert_eq!(string_of(&trimmed(&cs(s))), s.trim());
        assert_eq!(string_of(&trimmed_start(&cs(s))), s.trim_start());
        assert_eq!(string_of(&trimmed_end(&cs(s))), s.trim_end());
    }
    assert_eq!(search(&cs("abcabc"), &cs("bc"), 0), Some(1));
    assert_eq!(search(&cs("abcabc"), &cs("bc"), 2), Some(4));
    assert_eq!(search(&cs("abc"), &cs("x"), 0), None);
    assert_eq!(rsearch(&cs("abcabc"), &cs("bc")), Some(4));
    assert!(holds(&cs("hello"), &cs("ell")));
    assert_eq!(string_of(&without(&cs("aXbXc"), &cs("X"))), "aXbXc".replace("X", ""));
    assert_eq!(string_of(&without(&cs("aaa"), &cs("aa"))), "aaa".replace("aa", ""));
}

#[test]
fn texts_are_ordered_as_str_orders_them() {
    for (a, b) in [("", "a"), ("a", "ab"), ("b", "ab"), ("z", "\u{e9}"), ("a", "a")] {
        assert_eq!(comes_before(&cs(a), &cs(b)), a < b);
    }
}

#[test]
fn numbers_are_written_out() {
    assert_eq!(dec_of(0), "0");
    assert_eq!(dec_of(u64::MAX), format!("{}", u64::MAX));
    assert_eq!(hex16_of(0xabc), format!("{:016x}", 0xabc));
    let mut s = String::new();
    push_upper_hex(&mut s, 0x2af);
    assert_eq!(s, format!("{:X}", 0x2af));
    assert_eq!(numbered("call_", 12), "call_12");
    let mut env = Env::new();
    env.bind('a', "one");
    env.bind('b', "two");
    assert_eq!(filled("$a, $b and $a", &env), "one, two and one");
}

#[test]
fn the_hash_is_fnv_1a() {
    let offset: u64 = 0xcbf29ce484222325;
    assert_eq!(fnv1a(b"", offset), offset);
    assert_eq!(fnv1a(b"a", offset), 0xaf63dc4c8601ec8c);
    assert_eq!(fnv1a(b"foobar", offset), 0x85944171f73967e8);
    assert_eq!(fnv1a(b"bar", fnv1a(b"foo", offset)), fnv1a(b"foobar", offset));
}

#[test]
fn chunks_scan_as_one() {
    let text = "a<think>b</think>c<tool_call>d</tool_call>e<";
    let mut whole = MarkupFilter::new();
    let mut expected = whole.feed(text, 2);
    expected.push_str(&whole.finish());
    for cut in 1..text.len() {
        let mut parts = MarkupFilter::new();
        let mut got = parts.feed(&text[..cut], 2);
        got.push_str(&parts.feed(&text[cut..], 2));
        got.push_str(&parts.finish());
        assert_eq!(got, expected);
    }
    assert_eq!(expected, "ace<");
}

#[test]
fn mask_rows_are_runs() {
    assert_eq!(make_prefix_row(5), vec![0, 5]);
    assert_eq!(make_gap_row(2, 3, 4), vec![0, 2, 3, 4]);
    assert_eq!(make_ramp(7, 3), vec![7, 8, 9]);
}
