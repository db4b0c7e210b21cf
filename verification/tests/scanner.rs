use shmd::paths::Extension;
use shmd::scanner::{is_audio_extension, is_audio_file, AudioScan, Entry, AUDIO_EXTS};

fn file(path: &str, ext: &str) -> Entry<String> {
    Entry { path: path.to_string(), is_dir: false, is_file: true, extension: Extension::Text(ext.to_string()) }
}

fn dir(path: &str) -> Entry<String> {
    Entry { path: path.to_string(), is_dir: true, is_file: false, extension: Extension::Missing }
}

#[test]
fn audio_extensions() {
    assert_eq!(AUDIO_EXTS.len(), 7);
    for e in ["mp3", "m4a", "ogg", "oga", "opus", "wav", "webm"] {
        assert!(is_audio_extension(e));
        assert!(is_audio_file(&file("/m/x", e)));
    }
    assert!(!is_audio_extension("aiff"));
    assert!(!is_audio_extension("txt"));
    assert!(!is_audio_file(&file("/m/x.txt", "txt")));
    let mut not_regular = file("/m/fifo.mp3", "mp3");
    not_regular.is_file = false;
    assert!(!is_audio_file(&not_regular));
    let mut missing = file("/m/x", "");
    missing.extension = Extension::Missing;
    assert!(!is_audio_file(&missing));
    missing.extension = Extension::NotUnicode;
    assert!(!is_audio_file(&missing));
}

#[test]
fn scan_is_depth_first_and_keeps_audio_files() {
    let mut scan = AudioScan::new("/m".to_string());
    assert!(scan.has_pending());
    assert_eq!(scan.next_dir().as_deref(), Some("/m"));
    assert!(!scan.has_pending());
    scan.visit(vec![
        dir("/m/a"),
        file("/m/1.mp3", "mp3"),
        file("/m/notes.txt", "txt"),
        dir("/m/b"),
        Entry { path: "/m/fifo.ogg".to_string(), is_dir: false, is_file: false, extension: Extension::Text("ogg".to_string()) },
    ]);
    assert_eq!(scan.next_dir().as_deref(), Some("/m/b"));
    scan.visit(vec![file("/m/b/2.ogg", "ogg"), dir("/m/b/c")]);
    assert_eq!(scan.next_dir().as_deref(), Some("/m/b/c"));
    scan.visit(vec![]);
    assert_eq!(scan.next_dir().as_deref(), Some("/m/a"));
    scan.visit(vec![file("/m/a/3.webm", "webm"), file("/m/a/4", "")]);
    assert_eq!(scan.next_dir(), None);
    assert!(!scan.has_pending());
    assert_eq!(scan.into_paths(), vec!["/m/1.mp3", "/m/b/2.ogg", "/m/a/3.webm"]);
}

#[test]
fn scan_of_a_tree_finds_all_audio_files_depth_first() {
    // root: a.mp3, sub1/, sub2/ ; sub1: b.ogg ; sub2: c.wav, deep/ ; deep: d.opus
    let listing = |d: &str| -> Vec<Entry<String>> {
        match d {
            "/r" => vec![file("/r/a.mp3", "mp3"), dir("/r/sub1"), dir("/r/sub2")],
            "/r/sub1" => vec![file("/r/sub1/b.ogg", "ogg")],
            "/r/sub2" => vec![file("/r/sub2/c.wav", "wav"), dir("/r/sub2/deep")],
            "/r/sub2/deep" => vec![file("/r/sub2/deep/d.opus", "opus")],
            _ => vec![],
        }
    };
    let mut scan = AudioScan::new("/r".to_string());
    while let Some(d) = scan.next_dir() {
        scan.visit(listing(&d));
    }
    assert_eq!(
        scan.into_paths(),
        vec!["/r/a.mp3", "/r/sub2/c.wav", "/r/sub2/deep/d.opus", "/r/sub1/b.ogg"]
    );
}
