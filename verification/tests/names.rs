//! Names, paths and other texts.

use plexr::labels::{compact_path, display_name_for, group_display_name, truncate};
use plexr::paths::strip_prefix;
use plexr::text::{
    chars_of, contains_part, decimal_text, is_whitespace, lines_of, parse_u32, replace, rfind,
    same_text, shown_text, split_at_each, string_of, to_lower, trim,
};

#[test]
fn custom_name_overrides_command_until_cleared() {
    assert_eq!(display_name_for(None, None), "New Tab");
    assert_eq!(display_name_for(None, Some("cargo test")), "cargo test");
    assert_eq!(
        display_name_for(Some("server"), Some("cargo test")),
        "server"
    );
}

#[test]
fn long_tab_labels_are_ellipsized() {
    assert_eq!(truncate("cargo test --workspace", 10), "cargo tes…");
}

#[test]
fn compacted_paths_prioritize_the_final_directory() {
    let compacted = compact_path("~/Projects/client/packages/frontend/src", 22);
    assert!(compacted.chars().count() <= 22);
    assert!(compacted.ends_with("src"));
    assert!(compacted.contains('…'));
}

#[test]
fn paths_that_fit_are_not_compacted() {
    assert_eq!(compact_path("~/Projects/app", 20), "~/Projects/app");
}

#[test]
fn pane_groups_use_default_or_custom_names() {
    let mut names = std::collections::HashMap::new();
    assert_eq!(group_display_name(&names, 3), "Group 3");
    names.insert(3, "Backend".to_string());
    assert_eq!(group_display_name(&names, 3), "Backend");
}

#[test]
fn short_labels_are_kept_and_narrow_ones_are_cut() {
    assert_eq!(truncate("abc", 3), "abc");
    assert_eq!(truncate("abc", 2), "a…");
    assert_eq!(truncate("abc", 1), "…");
    assert_eq!(truncate("abc", 0), "");
    assert_eq!(truncate("äöü", 2), "ä…");
    assert_eq!(truncate("", 0), "");
}

#[test]
fn compacted_paths_have_exact_forms() {
    assert_eq!(
        compact_path("~/Projects/client/packages/frontend/src", 22),
        "~/…/frontend/src"
    );
    assert_eq!(compact_path("/usr/local/share/doc", 15), "/…/local/…/doc");
    assert_eq!(compact_path("/usr/local/share/doc", 10), "/…/doc");
    assert_eq!(compact_path("/a/averyverylongname", 8), "…/ngname");
    assert_eq!(compact_path("/a/averyverylongname", 2), "…");
    assert_eq!(compact_path("/a/averyverylongname", 1), "…");
    assert_eq!(compact_path("/a/averyverylongname", 0), "");
    assert_eq!(compact_path("////////", 4), "///…");
    assert_eq!(compact_path("projects/a/b", 5), "…/a/b");
}

#[test]
fn compacted_paths_always_fit() {
    for path in ["~/one/two/three/four", "/x/y/z", "plain", "~/", "//a//b//", "/äöü/ßßß/end"] {
        for width in 0..25usize {
            assert!(compact_path(path, width).chars().count() <= width);
            assert!(truncate(path, width).chars().count() <= width);
        }
    }
}

#[test]
fn white_space_is_that_of_unicode() {
    for code in 0..=0x10ffffu32 {
        if let Some(c) = char::from_u32(code) {
            assert_eq!(is_whitespace(c), c.is_whitespace());
        }
    }
}

#[test]
fn trimming_agrees_with_the_standard_library() {
    for text in ["", " ", "a", " a ", "\t a b\u{a0}\n", "\u{3000}x\u{3000}", "no"] {
        assert_eq!(trim(text), text.trim());
    }
}

#[test]
fn replacing_agrees_with_the_standard_library() {
    for text in ["", "aaa", "\r\n", "a\r\nb\r", "abcabc", "%20%2%20"] {
        for (from, to) in [("a", "bb"), ("\r\n", "\n"), ("\r", "\n"), ("%20", " "), ("aa", "")] {
            let chars = replace(&chars_of(text), &chars_of(from), &chars_of(to));
            let own: String = chars.into_iter().collect();
            assert_eq!(own, text.replace(from, to));
        }
    }
}

#[test]
fn searching_agrees_with_the_standard_library() {
    for text in ["", "abcabc", "xx", "aaa"] {
        for part in ["a", "abc", "aa", "x", "zz"] {
            let chars = chars_of(text);
            assert_eq!(contains_part(&chars, part), text.contains(part));
            assert_eq!(rfind(&chars, &chars_of(part)), text.rfind(part));
        }
    }
    assert!(contains_part(&chars_of("abc"), ""));
}

#[test]
fn lines_agree_with_the_standard_library() {
    for text in ["", "a", "a\n", "a\nb", "a\r\nb\r\n", "\n\n", "a\rb", "x\r"] {
        assert_eq!(
            lines_of(text),
            text.lines().map(String::from).collect::<Vec<_>>()
        );
        assert_eq!(
            split_at_each(&chars_of(text), '\n'),
            text.split('\n').map(String::from).collect::<Vec<_>>()
        );
    }
}

#[test]
fn numbers_agree_with_the_standard_library() {
    for n in [0u64, 7, 10, 99, 100, 12345, u64::MAX] {
        assert_eq!(decimal_text(n), n.to_string());
    }
    for text in ["", "0", "12", "+5", "-5", "4294967295", "4294967296", "1a", "+", "007"] {
        assert_eq!(parse_u32(text), text.parse::<u32>().ok());
    }
}

#[test]
fn small_texts_are_compared_and_lowered() {
    assert!(same_text("abc", "abc"));
    assert!(!same_text("abc", "abd"));
    assert!(!same_text("abc", "ab"));
    assert_eq!(to_lower("AbC-Z1"), "abc-z1".chars().collect::<Vec<_>>());
    assert_eq!(string_of(&chars_of("hello"), 1, 3), "el");
}

#[test]
fn prefixes_are_stripped_as_the_standard_library_does() {
    let paths = [
        "/home/user", "/home/user/", "/home/user/a/b", "/home/users", "/", "", "a/b", "./a", "/home//user/x",
        "/home/./user/y", "home/user", ".", "/home/user/../z", "//", "/home/user/a/", "a/./b",
    ];
    for path in paths {
        for base in paths {
            let own = strip_prefix(path.as_bytes(), base.as_bytes());
            let other = std::path::Path::new(path).strip_prefix(base).ok();
            assert_eq!(
                own,
                other.and_then(|rest| rest.to_str()).map(|rest| rest.as_bytes().to_vec()),
                "{path} below {base}"
            );
        }
    }
    assert_eq!(
        strip_prefix(b"/home/\xff/x\xfe", b"/home/\xff"),
        Some(b"x\xfe".to_vec())
    );
}

#[test]
fn bytes_are_shown_as_text() {
    assert_eq!(shown_text("häuser".as_bytes()), "häuser");
    assert_eq!(shown_text(b""), "");
    assert_eq!(shown_text(b"a\xffb"), "a\u{fffd}b");
}
