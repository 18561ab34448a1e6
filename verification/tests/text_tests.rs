use fwupdate::text::{chars_of, contains_exec, replace_exec, same_text, split_lines};

fn v(s: &str) -> Vec<char> {
    s.chars().collect()
}

#[test]
fn split_lines_matches_std() {
    for s in ["", "a", "a\n", "a\nb", "a\r\nb\r\n", "\n", "\n\n", "a\rb\n", "x\n\r", "é\nü"] {
        let expected: Vec<String> = s.lines().map(|l| l.to_string()).collect();
        assert_eq!(split_lines(s), expected, "input {:?}", s);
    }
}

#[test]
fn replace_matches_std() {
    for (s, p, r) in [
        ("aaa", "aa", "b"),
        ("%web%x%web%", "%web%", ""),
        ("abc", "z", "q"),
        ("_mp3_mp3", "_mp3", ".mp3"),
        ("", "x", "y"),
    ] {
        let out: String = replace_exec(&v(s), &v(p), &v(r)).into_iter().collect();
        assert_eq!(out, s.replace(p, r));
    }
}

#[test]
fn contains_and_equality() {
    assert!(contains_exec(&v("a succeeded"), &v(" succeeded")));
    assert!(!contains_exec(&v("succeeded"), &v(" succeeded")));
    assert!(contains_exec(&v("abc"), &v("")));
    assert!(same_text("-c", "-c"));
    assert!(!same_text("-c", "-C"));
    assert_eq!(chars_of("héllo"), v("héllo"));
}

#[test]
fn law_lines_have_no_newline_on_values() {
    for s in ["a\nb\r\n\nc", "\n\n\n", "x\r"] {
        for line in split_lines(s) {
            assert!(!line.contains('\n'));
        }
    }
}
