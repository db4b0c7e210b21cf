use id3::frame::{Picture, PictureType};
use id3::{Tag, TagLike, Version};
use shmd::models::{thumbnail_path, NewMedia, ID3_EXTS};
use shmd::paths::Extension;
use shmd::record::Media;

fn tag_bytes(title: Option<&str>, artist: Option<&str>, album: Option<&str>, pictures: &[&[u8]]) -> Vec<u8> {
    let mut tag = Tag::new();
    if let Some(t) = title {
        tag.set_title(t);
    }
    if let Some(a) = artist {
        tag.set_artist(a);
    }
    if let Some(a) = album {
        tag.set_album(a);
    }
    for (i, data) in pictures.iter().enumerate() {
        tag.add_frame(Picture {
            mime_type: "image/png".to_string(),
            picture_type: if i == 0 { PictureType::CoverFront } else { PictureType::CoverBack },
            description: format!("picture {}", i),
            data: data.to_vec(),
        });
    }
    let mut out = Vec::new();
    tag.write_to(&mut out, Version::Id3v24).unwrap();
    out.extend_from_slice(&[0xff, 0xfb, 0x90, 0x00]);
    out
}

fn text(s: &str) -> Extension {
    Extension::Text(s.to_string())
}

#[test]
fn id3_extensions_are_listed() {
    assert_eq!(ID3_EXTS, ["mp3", "wav", "aiff"]);
    assert!(shmd::models::reads_tag(&text("mp3")));
    assert!(shmd::models::reads_tag(&text("wav")));
    assert!(shmd::models::reads_tag(&text("aiff")));
    assert!(!shmd::models::reads_tag(&text("ogg")));
    assert!(!shmd::models::reads_tag(&text("MP3")));
    assert!(!shmd::models::reads_tag(&Extension::Missing));
    assert!(!shmd::models::reads_tag(&Extension::NotUnicode));
}

#[test]
fn from_path_reads_the_tag_of_an_mp3() {
    let root = "/music".to_string();
    let location = "/music/band/song.mp3".to_string();
    let bytes = tag_bytes(Some("Song"), Some("Band"), Some("Album"), &[]);
    let m = NewMedia::from_path(&root, &location, &text("mp3"), &Ok(bytes)).unwrap();
    assert_eq!(m.title, "Song");
    assert_eq!(m.artist.as_deref(), Some("Band"));
    assert_eq!(m.album.as_deref(), Some("Album"));
    assert_eq!(m.location, "/band/song.mp3");
}

#[test]
fn from_path_defaults_the_title() {
    let root = "/music".to_string();
    let location = "/music/a.wav".to_string();
    let bytes = tag_bytes(None, None, None, &[]);
    let m = NewMedia::from_path(&root, &location, &text("wav"), &Ok(bytes)).unwrap();
    assert_eq!(m.title, "No title");
    assert_eq!(m.artist, None);
    assert_eq!(m.album, None);
    assert_eq!(m.location, "/a.wav");
}

#[test]
fn from_path_removes_nul_characters() {
    let root = "/music".to_string();
    let location = "/music/a.mp3".to_string();
    let bytes = tag_bytes(Some("Ti\u{0}tle"), Some("\u{0}Art"), Some("Al\u{0}bum\u{0}"), &[]);
    let m = NewMedia::from_path(&root, &location, &text("mp3"), &Ok(bytes)).unwrap();
    assert_eq!(m.title, "Title");
    assert_eq!(m.artist.as_deref(), Some("Art"));
    assert_eq!(m.album.as_deref(), Some("Album"));
}

#[test]
fn from_path_strips_only_the_first_root() {
    let root = "/m".to_string();
    let location = "/m/x/m/y.mp3".to_string();
    let bytes = tag_bytes(Some("T"), None, None, &[]);
    let m = NewMedia::from_path(&root, &location, &text("mp3"), &Ok(bytes)).unwrap();
    assert_eq!(m.location, "/x/m/y.mp3");
    let other = "/elsewhere/y.mp3".to_string();
    let bytes = tag_bytes(Some("T"), None, None, &[]);
    let m = NewMedia::from_path(&root, &other, &text("mp3"), &Ok(bytes)).unwrap();
    assert_eq!(m.location, "/elsewhere/y.mp3");
}

#[test]
fn from_path_rejects_other_extensions() {
    let root = "/music".to_string();
    let location = "/music/a.ogg".to_string();
    let r = NewMedia::from_path(&root, &location, &text("ogg"), &Err("never read".to_string()));
    assert_eq!(r.err().unwrap(), "Unsupported extension 'ogg'");
    let r = NewMedia::from_path(&root, &location, &Extension::Missing, &Ok(vec![]));
    assert_eq!(r.err().unwrap(), "No extensions found");
    let r = NewMedia::from_path(&root, &location, &Extension::NotUnicode, &Ok(vec![]));
    assert_eq!(r.err().unwrap(), "Could not convert OsStr to &str");
}

#[test]
fn from_path_reports_read_errors() {
    let root = "/music".to_string();
    let location = "/music/a.mp3".to_string();
    let r = NewMedia::from_path(&root, &location, &text("mp3"), &Err("IO: gone".to_string()));
    assert_eq!(r.err().unwrap(), "IO: gone");
    let r = NewMedia::from_path(&root, &location, &text("mp3"), &Ok(b"not a tag at all".to_vec()));
    assert!(r.is_err());
    assert!(!r.err().unwrap().is_empty());
}

#[test]
fn thumbnail_is_the_first_picture() {
    let m = NewMedia {
        title: "T".to_string(),
        artist: None,
        album: None,
        location: "band/song.mp3".to_string(),
    };
    let root = "/music".to_string();
    assert_eq!(thumbnail_path(&root, &m.location).as_deref(), Some("/music/band/song.mp3"));
    let bytes = tag_bytes(Some("T"), None, None, &[b"first", b"second"]);
    assert_eq!(m.thumbnail(&root, &Ok(bytes)), Some(b"first".to_vec()));
    let bytes = tag_bytes(Some("T"), None, None, &[]);
    assert_eq!(m.thumbnail(&root, &Ok(bytes)), None);
    assert_eq!(m.thumbnail(&root, &Err("IO: gone".to_string())), None);
}

#[test]
fn thumbnail_needs_an_id3_extension() {
    let m = NewMedia {
        title: "T".to_string(),
        artist: None,
        album: None,
        location: "band/song.flac".to_string(),
    };
    let root = "/music".to_string();
    assert_eq!(thumbnail_path(&root, &m.location), None);
    let bytes = tag_bytes(Some("T"), None, None, &[b"first"]);
    assert_eq!(m.thumbnail(&root, &Ok(bytes)), None);
    assert_eq!(thumbnail_path(&root, &"noext".to_string()), None);
}

#[test]
fn thumbnail_path_of_an_absolute_location() {
    let root = "/music".to_string();
    assert_eq!(thumbnail_path(&root, &"/other/a.aiff".to_string()).as_deref(), Some("/other/a.aiff"));
}

#[test]
fn record_from_path_keeps_errors_as_title() {
    let location = "/music/a.ogg".to_string();
    let m = Media::from_path(&location, &text("ogg"), &Ok(vec![]));
    assert_eq!(m.title, "Unsupported extension 'ogg'");
    assert_eq!(m.location, "/music/a.ogg");
    assert_eq!(m.id, None);
    assert_eq!(m.genreid, None);
    assert_eq!(m.artist, None);
    let m = Media::from_path(&location, &Extension::Missing, &Ok(vec![]));
    assert_eq!(m.title, "No extensions found");
    let m = Media::from_path(&location, &Extension::NotUnicode, &Ok(vec![]));
    assert_eq!(m.title, "Could not convert OsStr to &str");
    let m = Media::from_path(&location, &text("mp3"), &Err("IO: gone".to_string()));
    assert_eq!(m.title, "IO: gone");
}

#[test]
fn record_from_path_reads_the_tag() {
    let location = "/music/a.mp3".to_string();
    let bytes = tag_bytes(Some("Song"), Some("Band"), None, &[]);
    let m = Media::from_path(&location, &text("mp3"), &Ok(bytes));
    assert_eq!(m.title, "Song");
    assert_eq!(m.artist.as_deref(), Some("Band"));
    assert_eq!(m.album, None);
    assert_eq!(m.location, "/music/a.mp3");
    let bytes = tag_bytes(None, None, Some("Al"), &[]);
    let m = Media::from_path(&location, &text("mp3"), &Ok(bytes));
    assert_eq!(m.title, "No title");
    assert_eq!(m.album.as_deref(), Some("Al"));
}

#[test]
fn record_error_holds_only_the_message() {
    let m = Media::error("bad".to_string(), "/x".to_string());
    assert_eq!(m.title, "bad");
    assert_eq!(m.location, "/x");
    assert!(m.id.is_none() && m.artist.is_none() && m.album.is_none() && m.genreid.is_none());
}

#[test]
fn from_location_takes_the_extension_of_the_path() {
    let root = "/music/".to_string();
    let location = "/music/band/song.mp3".to_string();
    assert!(shmd::models::reads_tag_at(&location));
    let bytes = tag_bytes(Some("Song"), None, None, &[]);
    let m = NewMedia::from_location(&root, &location, &Ok(bytes)).unwrap();
    assert_eq!(m.title, "Song");
    assert_eq!(m.location, "band/song.mp3");
    let ogg = "/music/a.ogg".to_string();
    assert!(!shmd::models::reads_tag_at(&ogg));
    let r = NewMedia::from_location(&root, &ogg, &Err("never read".to_string()));
    assert_eq!(r.err().unwrap(), "Unsupported extension 'ogg'");
    let none = "/music/README".to_string();
    let r = NewMedia::from_location(&root, &none, &Ok(vec![]));
    assert_eq!(r.err().unwrap(), "No extensions found");
    let hidden = "/music/.mp3".to_string();
    let r = NewMedia::from_location(&root, &hidden, &Ok(vec![]));
    assert_eq!(r.err().unwrap(), "No extensions found");
}

#[test]
fn record_from_location() {
    let location = "/music/a.aiff".to_string();
    let m = Media::from_location(&location, &Err("IO: gone".to_string()));
    assert_eq!(m.title, "IO: gone");
    let m = Media::from_location(&"/music/a.txt".to_string(), &Ok(vec![]));
    assert_eq!(m.title, "Unsupported extension 'txt'");
    let bytes = tag_bytes(Some("Song"), None, None, &[]);
    let m = Media::from_location(&"/music/a.mp3".to_string(), &Ok(bytes));
    assert_eq!(m.title, "Song");
}

#[test]
fn thumbnail_of_a_scanned_file_is_read_from_that_file() {
    let root = "/music/".to_string();
    let location = "/music/band/song.mp3".to_string();
    let bytes = tag_bytes(Some("Song"), None, None, &[b"cover"]);
    let m = NewMedia::from_location(&root, &location, &Ok(bytes.clone())).unwrap();
    assert_eq!(thumbnail_path(&root, &m.location), Some(location.clone()));
    assert_eq!(m.thumbnail(&root, &Ok(bytes)), Some(b"cover".to_vec()));
    // without a trailing separator on the root, the stored location is absolute
    let bare = "/music".to_string();
    let bytes = tag_bytes(Some("Song"), None, None, &[]);
    let m = NewMedia::from_location(&bare, &location, &Ok(bytes)).unwrap();
    assert_eq!(thumbnail_path(&bare, &m.location).as_deref(), Some("/band/song.mp3"));
}
