use dev_header::text::{blank, chars_of, string_of};
use dev_header::words::split_words;
use dev_header::wrap::wrap_text;

fn words_of(text: &str) -> Vec<String> {
    let chars: Vec<char> = text.chars().collect();
    split_words(&chars).iter().map(|w| w.iter().collect::<String>()).collect()
}

#[test]
fn blank_is_the_white_space_property() {
    for code in 0..=0x10FFFFu32 {
        if let Some(c) = char::from_u32(code) {
            assert_eq!(blank(c), c.is_whitespace(), "U+{:04X}", code);
        }
    }
}

#[test]
fn blank_examples() {
    assert!(blank(' '));
    assert!(blank('\t'));
    assert!(blank('\n'));
    assert!(blank('\u{a0}'));
    assert!(blank('\u{3000}'));
    assert!(!blank('a'));
    assert!(!blank('_'));
    assert!(!blank('\u{200b}'));
}

#[test]
fn strings_and_characters_convert_both_ways() {
    let text = "a b\tç 越";
    let chars = chars_of(text);
    assert_eq!(chars, vec!['a', ' ', 'b', '\t', 'ç', ' ', '越']);
    assert_eq!(string_of(&chars), text);
    assert_eq!(string_of(&Vec::new()), "");
}

#[test]
fn words_are_the_runs_between_blanks() {
    assert_eq!(words_of("Hello World"), vec!["Hello", "World"]);
    assert_eq!(words_of("  lead and  trail \t\n"), vec!["lead", "and", "trail"]);
    assert_eq!(words_of("one"), vec!["one"]);
    assert_eq!(words_of("a\u{a0}b\u{2003}c"), vec!["a", "b", "c"]);
    assert_eq!(words_of(""), Vec::<String>::new());
    assert_eq!(words_of(" \t "), Vec::<String>::new());
}

#[test]
fn words_agree_with_split_whitespace() {
    let samples = [
        "",
        " ",
        "x",
        " x",
        "x ",
        "the quick  brown\tfox\njumps",
        "\u{2028}a\u{2029}\u{85}b  ",
        "tab\tseparated\tvalues",
    ];
    for text in samples {
        let expected: Vec<String> = text.split_whitespace().map(|w| w.to_string()).collect();
        assert_eq!(words_of(text), expected);
    }
}

#[test]
fn empty_text_wraps_to_one_empty_line() {
    assert_eq!(wrap_text("", 5), vec![""]);
    assert_eq!(wrap_text("   \n ", 5), vec![""]);
}

#[test]
fn words_that_fit_share_a_line() {
    assert_eq!(wrap_text("Hello World", 13), vec!["Hello World "]);
    assert_eq!(wrap_text("Hello World", 12), vec!["Hello World "]);
    assert_eq!(wrap_text("  Hello \t World  ", 20), vec!["Hello World "]);
}

#[test]
fn word_that_does_not_fit_starts_a_new_line() {
    assert_eq!(wrap_text("Hello World", 11), vec!["Hello ", "World "]);
    assert_eq!(wrap_text("aaaa bbbbbb cc", 10), vec!["aaaa ", "bbbbbb cc "]);
    assert_eq!(wrap_text("one two three four", 10), vec!["one two ", "three ", "four "]);
}

#[test]
fn word_as_wide_as_the_line_stands_alone() {
    assert_eq!(wrap_text("abcd", 4), vec!["", "abcd"]);
    assert_eq!(wrap_text("ab abcd ef", 4), vec!["ab ", "abcd", "ef "]);
}

#[test]
fn word_wider_than_the_line_is_cut() {
    assert_eq!(wrap_text("abcdefgh", 5), vec!["abcde", "fgh"]);
    assert_eq!(wrap_text("abcdefghij", 4), vec!["abcd", "efgh", "ij"]);
    assert_eq!(wrap_text("ab abcdefgh", 4), vec!["ab ", "abcd", "efgh"]);
    assert_eq!(wrap_text("ab abcdefghi", 4), vec!["ab ", "abcd", "efgh", "i"]);
    assert_eq!(wrap_text("abcdefg", 1), vec!["a", "b", "c", "d", "e", "f", "g"]);
}

#[test]
fn words_follow_the_last_piece_of_a_cut_word() {
    assert_eq!(wrap_text("abcdefg hi", 6), vec!["abcdef", "g hi"]);
    assert_eq!(wrap_text("abcdefghij kl m", 8), vec!["abcdefgh", "ij kl m"]);
    assert_eq!(wrap_text("abcdefghij kl mn", 8), vec!["abcdefgh", "ij kl mn"]);
    assert_eq!(wrap_text("abcdefghij kl mno", 8), vec!["abcdefgh", "ij kl", "mno "]);
    assert_eq!(wrap_text("abcdefghij klmnop", 8), vec!["abcdefgh", "ij", "klmnop "]);
}

#[test]
fn no_line_is_wider_than_the_width() {
    let text = "Lorem ipsum dolor sit amet, consectetur adipiscing elit, \
                sed do eiusmod tempor incididunt ut labore et dolore magna aliqua";
    for width in 1..40usize {
        let lines = wrap_text(text, width);
        assert!(!lines.is_empty());
        for line in &lines {
            assert!(line.chars().count() <= width, "width {}: {:?}", width, line);
        }
    }
}

#[test]
fn wrapping_keeps_the_characters_in_order() {
    let text = " Lorem ipsum\tdolor sit amet, consectetur\u{a0}adipiscing elit ";
    let expected: String = text.chars().filter(|c| !c.is_whitespace()).collect();
    for width in 1..40usize {
        let laid: String = wrap_text(text, width).concat();
        let kept: String = laid.chars().filter(|c| !c.is_whitespace()).collect();
        assert_eq!(kept, expected, "width {}", width);
    }
}

#[test]
fn wrapping_keeps_the_words_that_fit() {
    let text = "the quick brown fox jumps over the lazy dog";
    let expected: Vec<&str> = text.split_whitespace().collect();
    for width in 5..40usize {
        let lines = wrap_text(text, width);
        let found: Vec<&str> = lines.iter().flat_map(|l| l.split_whitespace()).collect();
        assert_eq!(found, expected, "width {}", width);
    }
}

#[test]
fn text_is_one_line_while_its_words_and_spaces_fit() {
    assert_eq!(wrap_text("ab cd", 6), vec!["ab cd "]);
    assert_eq!(wrap_text("ab cd", 5), vec!["ab ", "cd "]);
    assert_eq!(wrap_text("ab", 3), vec!["ab "]);
    assert_eq!(wrap_text("ab", 2), vec!["", "ab"]);
    let text = "a bc def";
    let spread: usize = text.split_whitespace().map(|w| w.chars().count() + 1).sum();
    assert_eq!(spread, 9);
    for width in 1..20usize {
        assert_eq!(wrap_text(text, width).len() == 1, spread <= width, "width {}", width);
    }
}

#[test]
fn every_piece_of_a_cut_word_but_the_last_fills_the_line() {
    let lines = wrap_text("abcdefghijklmnopqrstuvwxyz", 7);
    assert_eq!(lines, vec!["abcdefg", "hijklmn", "opqrstu", "vwxyz"]);
    let even = wrap_text("abcdefgh", 4);
    assert_eq!(even, vec!["abcd", "efgh"]);
}

#[test]
fn one_wide_word_is_wrapped_into_its_pieces() {
    let text = "abcdefghijklmnopqrstuvwxyz";
    for width in 1..26usize {
        let lines = wrap_text(text, width);
        assert_eq!(lines.concat(), text, "width {}", width);
        assert_eq!(lines.len(), (text.len() + width - 1) / width, "width {}", width);
        for line in &lines[..lines.len() - 1] {
            assert_eq!(line.len(), width, "width {}", width);
        }
        let last = lines[lines.len() - 1].len();
        assert!(1 <= last && last <= width, "width {}", width);
    }
}
