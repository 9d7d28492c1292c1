use memo_guard::text::{trim, white_space};
use memo_guard::{is_markdown_file, is_safe_filename, is_within_folder};

#[test]
fn markdown_extension_in_any_case() {
    assert!(is_markdown_file("/ws/a.md"));
    assert!(is_markdown_file("/ws/a.MD"));
    assert!(is_markdown_file("/ws/a.Md"));
    assert!(is_markdown_file("notes/a.b.md"));
    assert!(is_markdown_file("/ws/a.md/"));
}

#[test]
fn non_markdown_paths_are_refused() {
    assert!(!is_markdown_file("/ws/a.txt"));
    assert!(!is_markdown_file("/ws/a.markdown"));
    assert!(!is_markdown_file("/ws/.md"));
    assert!(!is_markdown_file("/ws/.."));
    assert!(!is_markdown_file("/"));
    assert!(!is_markdown_file(""));
    assert!(!is_markdown_file("/ws/md"));
    assert!(!is_markdown_file("/ws/a.md.bak"));
}

#[test]
fn plain_names_are_safe() {
    assert!(is_safe_filename("note"));
    assert!(is_safe_filename("a.b"));
    assert!(is_safe_filename("my note 2"));
    assert!(is_safe_filename("  padded  "));
    assert!(is_safe_filename("\u{3000}note\u{3000}"));
}

#[test]
fn blank_names_are_left_to_the_caller() {
    assert!(is_safe_filename(""));
    assert!(is_safe_filename("   "));
    assert!(is_safe_filename("\t\n"));
}

#[test]
fn traversal_and_hidden_names_are_refused() {
    assert!(!is_safe_filename("a/b"));
    assert!(!is_safe_filename("a\\b"));
    assert!(!is_safe_filename("a..b"));
    assert!(!is_safe_filename(".."));
    assert!(!is_safe_filename("../secret"));
    assert!(!is_safe_filename(".hidden"));
    assert!(!is_safe_filename("/etc/passwd"));
    assert!(!is_safe_filename("  /abs"));
}

#[test]
fn a_leading_dot_behind_white_space_is_refused() {
    assert!(!is_safe_filename(" .x"));
}

#[test]
fn white_space_matches_std_for_every_char() {
    for u in 0u32..0x11_0000 {
        if let Some(c) = char::from_u32(u) {
            assert_eq!(white_space(c), c.is_whitespace(), "code point {:x}", u);
        }
    }
}

#[test]
fn trim_matches_std() {
    for s in ["", "  ", " a ", "\u{2003}x y\u{85}", "abc", "\ta\tb\t", "\u{200b}z"] {
        assert_eq!(trim(s), s.trim());
    }
}

#[test]
fn within_folder_goes_by_components() {
    assert!(is_within_folder("/ws", "/ws/a.md"));
    assert!(is_within_folder("/ws", "/ws/sub/deep.md"));
    assert!(is_within_folder("/ws", "/ws"));
    assert!(is_within_folder("/ws/", "/ws/a.md"));
    assert!(is_within_folder("/", "/anything/at/all.md"));
    assert!(is_within_folder("/ws//x", "/ws/x/a.md"));
}

#[test]
fn sibling_with_a_longer_name_is_outside() {
    assert!(!is_within_folder("/ws", "/ws2/a.md"));
    assert!(!is_within_folder("/ws", "/wsx"));
}

#[test]
fn outside_targets_are_not_within() {
    assert!(!is_within_folder("/ws", "/secret.md"));
    assert!(!is_within_folder("/ws/sub", "/ws/a.md"));
    assert!(!is_within_folder("/ws", "ws/a.md"));
}
