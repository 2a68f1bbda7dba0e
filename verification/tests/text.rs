use mcp_server_template::text::{
    chars_of, lower_of, lower_range_is, same_text, split_ranges, to_decimal, trim_range, CharSet,
};

fn pieces(s: &str, sep: char) -> Vec<String> {
    let chars = chars_of(s);
    split_ranges(&chars, 0, chars.len(), sep)
        .iter()
        .map(|(a, b)| chars[*a..*b].iter().collect())
        .collect()
}

fn trimmed(s: &str, set: CharSet) -> String {
    let chars = chars_of(s);
    let (a, b) = trim_range(&chars, 0, chars.len(), set);
    chars[a..b].iter().collect()
}

#[test]
fn white_space_is_the_unicode_property() {
    for c in '\0'..=char::MAX {
        assert_eq!(CharSet::WhiteSpace.contains(c), c.is_whitespace(), "{:?}", c);
    }
}

#[test]
fn brackets_are_the_two_square_ones() {
    for c in '\0'..='\u{ff}' {
        assert_eq!(CharSet::Brackets.contains(c), c == '[' || c == ']');
    }
}

#[test]
fn trimming_agrees_with_std() {
    for s in ["", " ", "a", "  a b \t", "\u{3000}x\u{a0}", "\u{200b}x", "\n\r\n"] {
        assert_eq!(trimmed(s, CharSet::WhiteSpace), s.trim());
    }
    for s in ["", "[", "[]", "[::1]", "]]a[b]c[[", "plain"] {
        assert_eq!(trimmed(s, CharSet::Brackets), s.trim_matches(['[', ']']));
    }
}

#[test]
fn splitting_agrees_with_std() {
    for s in ["", ",", "a", "a,b", ",a,,b,", "é,ü"] {
        let expected: Vec<String> = s.split(',').map(str::to_owned).collect();
        assert_eq!(pieces(s, ','), expected);
    }
}

#[test]
fn splitting_undoes_joining() {
    let parts = vec!["a".to_owned(), String::new(), "bc".to_owned()];
    assert_eq!(pieces(&parts.join(":"), ':'), parts);
}

#[test]
fn joining_undoes_splitting() {
    for s in ["", ":", "a:b::c", "::"] {
        let p = pieces(s, ':');
        assert_eq!(p.join(":"), s);
        assert!(p.iter().all(|x| !x.contains(':')));
    }
}

#[test]
fn lower_case_agrees_with_std() {
    for c in '\0'..='\u{300}' {
        assert_eq!(lower_of(c), c.to_ascii_lowercase());
        assert_eq!(lower_of(lower_of(c)), lower_of(c));
    }
}

#[test]
fn words_are_found_in_any_case() {
    let chars = chars_of("xLocalHostx");
    let word = chars_of("localhost");
    assert!(lower_range_is(&chars, 1, 10, &word));
    assert!(!lower_range_is(&chars, 0, 9, &word));
    assert!(!lower_range_is(&chars, 1, 9, &word));
}

#[test]
fn texts_are_compared_by_characters() {
    assert!(same_text("é", "é"));
    assert!(!same_text("a", "A"));
    assert!(!same_text("a", ""));
}

#[test]
fn decimal_notation_agrees_with_std() {
    for n in [0u128, 7, 10, 99, 100, 1_785_974_400_000, u64::MAX as u128, u128::MAX] {
        assert_eq!(to_decimal(n), n.to_string());
    }
}

#[test]
fn numbers_have_notations_of_their_own() {
    let mut seen: Vec<String> = (0u128..2000).map(to_decimal).collect();
    seen.sort();
    seen.dedup();
    assert_eq!(seen.len(), 2000);
}
