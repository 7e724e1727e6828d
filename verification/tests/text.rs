use rosco_cli::text::{
    comes_before, contains, decimal, hexadecimal, join, keep_from_last, lines, pad_left,
    pad_right, signed_decimal, split, split_once, split_words, strip_prefix, to_ascii_lower, trim,
    trim_end, unquote,
};

#[test]
fn texts_are_searched_and_cut_as_written() {
    assert!(contains("abcabd", "abd"));
    assert!(!contains("ab", "abc"));
    assert!(contains("anything", ""));
    assert_eq!(keep_from_last("Load a Load b", "Load "), "Load b");
    assert_eq!(keep_from_last("nothing", "Load "), "nothing");
    assert_eq!(strip_prefix("ERROR: x", "ERROR:"), Some(" x".to_string()));
    assert_eq!(strip_prefix("x", "ERROR:"), None);
    assert_eq!(trim(" \t a b \u{a0}\r\n"), "a b");
    assert_eq!(trim_end(" a "), " a");
    assert_eq!(to_ascii_lower("AsmÄ"), "asmÄ");
    assert_eq!(unquote("\"a\"b\""), "a\"b");
}

#[test]
fn splitting_and_joining_undo_each_other() {
    let parts = split("build.docker.image", '.');
    assert_eq!(parts, ["build", "docker", "image"]);
    assert_eq!(join(&parts, "."), "build.docker.image");
    assert_eq!(split("", '.'), [""]);
    assert_eq!(split("a.", '.'), ["a", ""]);
    assert_eq!(join(&Vec::new(), "."), "");
    assert_eq!(
        split_once("ID=a=b", '='),
        Some(("ID".to_string(), "a=b".to_string()))
    );
    assert_eq!(split_once("ID", '='), None);
    assert_eq!(split_words("  ubuntu\tdebian "), ["ubuntu", "debian"]);
}

#[test]
fn lines_end_the_way_files_end_them() {
    for text in ["", "a", "a\n", "a\r\nb", "a\n\nb\r", "\n", "a\r\n\r\n"] {
        let expected: Vec<String> = text.lines().map(str::to_string).collect();
        assert_eq!(lines(text), expected, "{text:?}");
    }
}

#[test]
fn numbers_are_written_the_usual_way() {
    assert_eq!(decimal(0), "0");
    assert_eq!(decimal(u64::MAX), "18446744073709551615");
    assert_eq!(signed_decimal(i64::MIN), "-9223372036854775808");
    assert_eq!(signed_decimal(-7), "-7");
    assert_eq!(signed_decimal(42), "42");
    assert_eq!(hexadecimal(0x1_0800), "10800");
    assert_eq!(hexadecimal(0), "0");
}

#[test]
fn columns_are_padded_and_never_cut() {
    assert_eq!(pad_right("ab", 4), "ab  ");
    assert_eq!(pad_right("abcde", 4), "abcde");
    assert_eq!(pad_left("7", 3), "  7");
    assert_eq!(pad_left("1000", 3), "1000");
}

#[test]
fn the_order_of_texts_is_that_of_strings() {
    let words = ["", "a", "aa", "ab", "b", "B", "é", "z"];
    for first in words {
        for second in words {
            assert_eq!(comes_before(first, second), first < second, "{first} {second}");
        }
    }
}
