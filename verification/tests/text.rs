use dhi_core::text::{
    char_is_whitespace, chars_of, range_equals, range_starts_with, slice_of, split_range,
    split_strings, split_top_range, trim_range,
};

fn chars(s: &str) -> Vec<char> {
    s.chars().collect()
}

#[test]
fn chars_of_keeps_every_character() {
    assert_eq!(chars_of(""), Vec::<char>::new());
    assert_eq!(chars_of("a,b"), vec!['a', ',', 'b']);
    assert_eq!(chars_of("añ日"), vec!['a', 'ñ', '日']);
}

#[test]
fn whitespace_characters() {
    for c in [
        '\t', '\n', '\u{b}', '\u{c}', '\r', ' ', '\u{85}', '\u{a0}', '\u{1680}', '\u{2000}',
        '\u{2005}', '\u{200a}', '\u{2028}', '\u{2029}', '\u{202f}', '\u{205f}', '\u{3000}',
    ] {
        assert!(char_is_whitespace(c), "{:?}", c);
        assert!(c.is_whitespace());
    }
    for c in ['a', '0', ',', '<', '\u{8}', '\u{e}', '\u{200b}', '\u{1f}', '\u{2060}', '\u{feff}'] {
        assert!(!char_is_whitespace(c), "{:?}", c);
        assert!(!c.is_whitespace());
    }
}

#[test]
fn whitespace_agrees_with_the_standard_library_everywhere() {
    for code in 0..=0x10ffffu32 {
        if let Some(c) = char::from_u32(code) {
            assert_eq!(char_is_whitespace(c), c.is_whitespace(), "{:?}", c);
        }
    }
}

#[test]
fn range_equals_compares_the_whole_range() {
    let text = chars("a string here");
    assert!(range_equals(&text, 2, 8, "string"));
    assert!(!range_equals(&text, 2, 7, "string"));
    assert!(!range_equals(&text, 2, 9, "string"));
    assert!(!range_equals(&text, 3, 9, "string"));
    assert!(range_equals(&text, 5, 5, ""));
    assert!(!range_equals(&text, 5, 6, ""));
}

#[test]
fn range_starts_with_reports_the_literal_length() {
    let text = chars("xxArray<string>");
    assert_eq!(range_starts_with(&text, 2, 15, "Array<"), (true, 6));
    assert_eq!(range_starts_with(&text, 2, 8, "Array<"), (true, 6));
    assert_eq!(range_starts_with(&text, 2, 7, "Array<"), (false, 6));
    assert_eq!(range_starts_with(&text, 0, 15, "Array<"), (false, 6));
    assert_eq!(range_starts_with(&text, 4, 4, ""), (true, 0));
}

#[test]
fn trim_range_drops_white_space_at_both_ends() {
    let text = chars("ab \t x y \n cd");
    assert_eq!(trim_range(&text, 2, 11), (5, 8));
    assert_eq!(trim_range(&text, 5, 8), (5, 8));
    assert_eq!(trim_range(&text, 0, 13), (0, 13));
    // Nothing but white space: the empty range at its end.
    assert_eq!(trim_range(&text, 2, 5), (5, 5));
    assert_eq!(trim_range(&text, 3, 3), (3, 3));
}

#[test]
fn split_range_cuts_at_every_separator() {
    let text = chars("[a,bc,,d,]");
    assert_eq!(split_range(&text, 1, 9, ','), vec![(1, 2), (3, 5), (6, 6), (7, 8), (9, 9)]);
    assert_eq!(split_range(&text, 1, 2, ','), vec![(1, 2)]);
    assert_eq!(split_range(&text, 4, 4, ','), vec![(4, 4)]);
    assert_eq!(split_range(&text, 5, 7, ','), vec![(5, 5), (6, 6), (7, 7)]);
    assert_eq!(split_range(&text, 1, 9, '.'), vec![(1, 9)]);
}

#[test]
fn split_strings_agrees_with_the_standard_library() {
    for text in ["", "a", ",", "a,b", ",a,,b,", "añ,日本", "user.prefs", "..", "a.b.c"] {
        for sep in [',', '.'] {
            let expected: Vec<String> = text.split(sep).map(String::from).collect();
            let all = chars(text);
            assert_eq!(split_strings(text, &all, 0, all.len(), sep), expected);
        }
    }
}

#[test]
fn trim_agrees_with_the_standard_library() {
    for text in ["", " ", "a", " a", "a ", " a b ", "\u{3000}x\u{a0}\t", " \n ", "日 本"] {
        let all = chars(text);
        let (lo, hi) = trim_range(&all, 0, all.len());
        assert_eq!(slice_of(text, lo, hi), text.trim());
    }
}

#[test]
fn slice_of_counts_characters_not_bytes() {
    assert_eq!(slice_of("añ日本z", 1, 3), "ñ日");
    assert_eq!(slice_of("añ日本z", 0, 5), "añ日本z");
    assert_eq!(slice_of("añ日本z", 5, 5), "");
}

#[test]
fn split_top_range_cuts_only_outside_brackets() {
    let pieces = |s: &str| -> Vec<String> {
        let all = chars(s);
        split_top_range(&all, 0, all.len(), ',')
            .into_iter()
            .map(|(a, b)| all[a..b].iter().collect())
            .collect()
    };
    assert_eq!(pieces(""), vec![""]);
    assert_eq!(pieces("a,b"), vec!["a", "b"]);
    assert_eq!(pieces(",a,,"), vec!["", "a", "", ""]);
    assert_eq!(pieces("U<a,b>,c"), vec!["U<a,b>", "c"]);
    assert_eq!(pieces("A<B<c,d>,e>,f<g,h>,i"), vec!["A<B<c,d>,e>", "f<g,h>", "i"]);
    assert_eq!(pieces("a>,b"), vec!["a>", "b"]);
    assert_eq!(pieces("a>>,<b,c>,d"), vec!["a>>", "<b,c>", "d"]);
    assert_eq!(pieces("a<b,c"), vec!["a<b,c"]);
    assert_eq!(pieces("<<a>,b>,c"), vec!["<<a>,b>", "c"]);
    let all = chars("xx<a,b>,c,yy");
    assert_eq!(split_top_range(&all, 2, 10, ','), vec![(2, 7), (8, 9), (10, 10)]);
    assert_eq!(split_top_range(&all, 3, 6, ','), vec![(3, 4), (5, 6)]);
    assert_eq!(split_top_range(&all, 4, 4, ','), vec![(4, 4)]);
    // A separator that is itself a bracket.
    assert_eq!(split_top_range(&all, 2, 7, '<'), vec![(2, 2), (3, 7)]);
}
