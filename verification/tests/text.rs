use shmd::paths::{extension_of, join_path, Extension};
use shmd::text::{chars_of, remove_char, remove_first, same_text, string_of_range};

#[test]
fn remove_first_cuts_one_occurrence() {
    assert_eq!(remove_first("/music/a/music/b", "/music"), "/a/music/b");
    assert_eq!(remove_first("abcabc", "bc"), "aabc");
    assert_eq!(remove_first("abc", "x"), "abc");
    assert_eq!(remove_first("abc", ""), "abc");
    assert_eq!(remove_first("ab", "abc"), "ab");
    assert_eq!(remove_first("aaa", "aa"), "a");
    assert_eq!(remove_first("/müsic/é.mp3", "/müsic"), "/é.mp3");
}

#[test]
fn remove_first_matches_replacen() {
    for (s, p) in [("xyxy", "y"), ("", ""), ("", "a"), ("hello world", "o w"), ("ééé", "é")] {
        assert_eq!(remove_first(s, p), s.replacen(p, "", 1));
    }
}

#[test]
fn remove_char_takes_out_every_nul() {
    assert_eq!(remove_char("a\u{0}b\u{0}\u{0}c", '\u{0}'), "abc");
    assert_eq!(remove_char("plain", '\u{0}'), "plain");
    assert_eq!(remove_char("\u{0}", '\u{0}'), "");
    let once = remove_char("x\u{0}y", '\u{0}');
    assert_eq!(remove_char(&once, '\u{0}'), once);
}

#[test]
fn char_helpers() {
    assert_eq!(chars_of("héllo"), vec!['h', 'é', 'l', 'l', 'o']);
    assert_eq!(string_of_range(&vec!['a', 'b', 'c', 'd'], 1, 3), "bc");
    assert!(same_text("mp3", "mp3"));
    assert!(!same_text("mp3", "mp4"));
    assert!(!same_text("mp3", "mp"));
}

#[test]
fn join_path_is_unix_path_join() {
    for (base, rel) in [
        ("/music", "a.mp3"),
        ("/music/", "a.mp3"),
        ("", "a.mp3"),
        ("/music", "/abs/a.mp3"),
        ("/music", ""),
        ("rel", "x/y"),
        ("/müsic", "é.mp3"),
    ] {
        let expected = std::path::Path::new(base).join(rel).to_string_lossy().into_owned();
        assert_eq!(join_path(base, rel), expected);
    }
    assert_eq!(join_path("/music", "a.mp3"), "/music/a.mp3");
}

#[test]
fn extension_of_is_unix_path_extension() {
    for p in [
        "/music/a.mp3", "/music/.mp3", "/music/a", "a.b.c", ".", "..", "/", "", "a/.", "a/..", "a.mp3/",
        "a.mp3//", "a.mp3/./", "./", "./.", "/.", "a.", "a..", "..a", ".a.b", "dir.d/file", "/m/é.ogg",
        "x/.hidden/", "x/y.z/.", "x/../y.wav", "...", "a/.../", "a//b.c", "./a.b",
    ] {
        let expected = std::path::Path::new(p).extension().map(|e| e.to_str().unwrap().to_string());
        let got = match extension_of(p) {
            Extension::Text(t) => Some(t),
            Extension::Missing => None,
            Extension::NotUnicode => panic!("not unicode"),
        };
        assert_eq!(got, expected, "path {:?}", p);
    }
}
