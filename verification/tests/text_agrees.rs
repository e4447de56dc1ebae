use stemplate::scanner::scan;
use stemplate::text::{
    chars_of, contains, find, is_whitespace, split, string_of, trim, width_of,
};

fn next(seed: &mut u64) -> u64 {
    *seed = seed.wrapping_mul(6364136223846793005).wrapping_add(1442695040888963407);
    *seed >> 33
}

fn sample(seed: &mut u64, alphabet: &[char], max_len: u64) -> String {
    let len = next(seed) % (max_len + 1);
    let mut s = String::new();
    for _ in 0..len {
        s.push(alphabet[(next(seed) % alphabet.len() as u64) as usize]);
    }
    s
}

fn char_position(s: &str, byte: usize) -> usize {
    s[..byte].chars().count()
}

#[test]
fn whitespace_is_what_the_standard_library_calls_whitespace() {
    let mut n: u32 = 0;
    while n <= 0x10FFFF {
        if let Some(c) = char::from_u32(n) {
            assert_eq!(is_whitespace(c), c.is_whitespace(), "U+{:04X}", n);
        }
        n += 1;
    }
}

#[test]
fn trim_agrees_with_the_standard_library() {
    let alphabet = [' ', '\t', '\n', 'a', 'b', '\u{a0}', '\u{3000}', 'é'];
    let mut seed: u64 = 1;
    for _ in 0..2000 {
        let s = sample(&mut seed, &alphabet, 8);
        assert_eq!(string_of(&trim(&chars_of(&s))), s.trim(), "{:?}", s);
    }
}

#[test]
fn find_and_contains_agree_with_the_standard_library() {
    let alphabet = ['a', 'b', '$', '{', 'é'];
    let mut seed: u64 = 2;
    for _ in 0..4000 {
        let hay = sample(&mut seed, &alphabet, 10);
        let needle = sample(&mut seed, &alphabet, 3);
        let expected = hay.find(needle.as_str()).map(|at| char_position(&hay, at));
        assert_eq!(find(&chars_of(&hay), &chars_of(&needle), 0), expected, "{:?} {:?}", hay, needle);
        assert_eq!(
            contains(&chars_of(&hay), &chars_of(&needle)),
            hay.contains(needle.as_str()),
            "{:?} {:?}",
            hay,
            needle
        );
    }
}

#[test]
fn split_agrees_with_the_standard_library() {
    let alphabet = ['a', ':', '-', '|', '=', 'é'];
    let separators = [":-", ":=", "|", "=", "--", "é:"];
    let mut seed: u64 = 3;
    for _ in 0..4000 {
        let s = sample(&mut seed, &alphabet, 10);
        let sep = separators[(next(&mut seed) % separators.len() as u64) as usize].to_string();
        let ours: Vec<String> = split(&chars_of(&s), &chars_of(&sep)).iter().map(string_of).collect();
        let theirs: Vec<String> = s.split(sep.as_str()).map(|p| p.to_string()).collect();
        assert_eq!(ours, theirs, "{:?} {:?}", s, sep);
    }
}

#[test]
fn strings_and_character_vectors_convert_both_ways() {
    let s = "a\u{e9}\u{1F600} \u{3000}z";
    assert_eq!(chars_of(s), s.chars().collect::<Vec<char>>());
    assert_eq!(string_of(&chars_of(s)), s);
}

#[test]
fn width_is_what_the_standard_library_encodes() {
    let mut n: u32 = 0;
    while n <= 0x10FFFF {
        if let Some(c) = char::from_u32(n) {
            assert_eq!(width_of(c), c.len_utf8(), "U+{:04X}", n);
        }
        n += 1;
    }
}

#[test]
fn byte_spans_are_the_offsets_of_the_string() {
    let alphabet = ['a', '\u{e9}', '\u{2603}', '\u{1F600}'];
    let mut seed: u64 = 5;
    for _ in 0..2000 {
        let before = sample(&mut seed, &alphabet, 6);
        let key = sample(&mut seed, &alphabet, 6);
        let after = sample(&mut seed, &alphabet, 6);
        let s = format!("{}${{{}}}{}", before, key, after);
        let found = scan(&s, "${", "}");
        assert_eq!(found.len(), 2, "{:?}", s);
        assert_eq!(found[0].start, before.len(), "{:?}", s);
        assert_eq!(found[0].key_start, before.len() + 2, "{:?}", s);
        assert_eq!(found[0].key_end, before.len() + 2 + key.len(), "{:?}", s);
        assert_eq!(found[0].end, before.len() + 3 + key.len(), "{:?}", s);
        assert_eq!(found[1].start, found[0].end, "{:?}", s);
        assert_eq!(&s[found[0].key_start..found[0].key_end], key, "{:?}", s);
    }
}

#[test]
fn first_placeholder_starts_where_the_standard_library_finds_the_delimiter() {
    let alphabet = ['a', '$', '{', '}', '\u{e9}', '\u{2603}', '\u{1F600}'];
    let mut seed: u64 = 4;
    for _ in 0..4000 {
        let s = sample(&mut seed, &alphabet, 12);
        let found = scan(&s, "${", "}");
        for p in found.iter() {
            assert!(s.is_char_boundary(p.start) && s.is_char_boundary(p.end), "{:?}", s);
            assert!(p.start <= p.key_start && p.key_start <= p.key_end && p.key_end <= p.end);
            if p.start < p.end {
                assert!(s[p.start..].starts_with("${"), "{:?}", s);
                assert!(s[p.key_end..p.end] == *"}", "{:?}", s);
            }
        }
        if let Some(first) = found.first() {
            match s.find("${") {
                Some(at) => assert_eq!(first.start, at, "{:?}", s),
                None => assert_eq!((first.start, first.end), (0, 0), "{:?}", s),
            }
        }
    }
}
