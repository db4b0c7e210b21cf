//! The scanner's media record: a file whose tag cannot be read still gets a
//! record, with the error message in place of its title.

use vstd::prelude::*;
use crate::models::{
    ext_reads_tag, extension_error, extension_message, is_id3_ext, no_extension_message, read_result,
    reads_tag, unsupported_message,
};
use crate::paths::{Extension, extension_of, unix_extension};
use crate::tags::{TagView, id3_tag, opt_text, read_tag};

verus! {

/// A scanned media file.
pub struct Media {
    pub id: Option<usize>,
    pub title: String,
    pub artist: Option<String>,
    pub album: Option<String>,
    pub location: String,
    pub genreid: Option<usize>,
}

/// The mathematical value of a scanned [`Media`] record.
pub struct MediaView {
    pub id: Option<usize>,
    pub title: Seq<char>,
    pub artist: Option<Seq<char>>,
    pub album: Option<Seq<char>>,
    pub location: Seq<char>,
    pub genreid: Option<usize>,
}

impl View for Media {
    type V = MediaView;

    open spec fn view(&self) -> MediaView {
        MediaView {
            id: self.id,
            title: self.title@,
            artist: opt_text(self.artist),
            album: opt_text(self.album),
            location: self.location@,
            genreid: self.genreid,
        }
    }
}

/// The record that stands for a file at `location` that could not be read:
/// the message `err` is its title, and it has no other data.
pub open spec fn error_record(err: Seq<char>, location: Seq<char>) -> MediaView {
    MediaView { id: None, title: err, artist: None, album: None, location, genreid: None }
}

/// The record built from the tag of the file at `location`.
pub open spec fn tag_record(location: Seq<char>, tag: TagView) -> MediaView {
    MediaView {
        id: None,
        title: match tag.title {
            Some(t) => t,
            None => "No title"@,
        },
        artist: tag.artist,
        album: tag.album,
        location,
        genreid: None,
    }
}

/// The record of the file at `location` whose bytes are `contents` (or the
/// message of the error reading it gave).
pub open spec fn id3_record(location: Seq<char>, contents: Result<Seq<u8>, Seq<char>>) -> MediaView {
    match contents {
        Err(e) => error_record(e, location),
        Ok(b) => match id3_tag(b) {
            Err(e) => error_record(e, location),
            Ok(tag) => tag_record(location, tag),
        },
    }
}

/// The record of the file at `location` with extension `ext`.
pub open spec fn path_record(
    location: Seq<char>,
    ext: Extension,
    contents: Result<Seq<u8>, Seq<char>>,
) -> MediaView {
    if ext_reads_tag(ext) {
        id3_record(location, contents)
    } else {
        error_record(extension_message(ext), location)
    }
}

/// The record of the file at the Unicode path `location`, whose extension
/// is the one `Path::extension` gives for it.
pub open spec fn location_record(location: Seq<char>, contents: Result<Seq<u8>, Seq<char>>) -> MediaView {
    match unix_extension(location) {
        None => error_record(no_extension_message(), location),
        Some(e) => if is_id3_ext(e) {
            id3_record(location, contents)
        } else {
            error_record(unsupported_message(e), location)
        },
    }
}

/// The scanner's record of a file whose tag reads well takes its title
/// (or "No title" when the tag has none), artist and album as the tag holds
/// them, each whatever the others are, and keeps the file's location; when
/// the file or its tag cannot be read, the error message is the title and
/// the record holds nothing else but the location.
pub proof fn law_scanned_record_fields(location: Seq<char>, contents: Result<Seq<u8>, Seq<char>>)
    ensures
        id3_record(location, contents).location == location,
        id3_record(location, contents).id is None,
        id3_record(location, contents).genreid is None,
        match contents {
            Ok(b) => match id3_tag(b) {
                Ok(tag) => {
                    let m = id3_record(location, contents);
                    &&& m.title == (match tag.title {
                        Some(t) => t,
                        None => seq!['N', 'o', ' ', 't', 'i', 't', 'l', 'e'],
                    })
                    &&& m.artist == tag.artist
                    &&& m.album == tag.album
                },
                Err(e) => {
                    let m = id3_record(location, contents);
                    m.title == e && m.artist is None && m.album is None
                },
            },
            Err(e) => {
                let m = id3_record(location, contents);
                m.title == e && m.artist is None && m.album is None
            },
        },
{
    reveal_strlit("No title");
    assert("No title"@ =~= seq!['N', 'o', ' ', 't', 'i', 't', 'l', 'e']);
}

impl Media {
    /// The record of a file at `location` that could not be read, with the
    /// message `err` as its title.
    pub fn error(err: String, location: String) -> (r: Media)
        ensures
            r@ == error_record(err@, location@),
    {
        Media { id: None, title: err, artist: None, album: None, location, genreid: None }
    }

    /// The record of the file at `location` built from the ID3 tag in its
    /// bytes `contents`; when the file or its tag cannot be read, the
    /// record holds the error message as its title.
    pub fn from_id3(location: &String, contents: &Result<Vec<u8>, String>) -> (r: Media)
        ensures
            r@ == id3_record(location@, read_result(*contents)),
    {
        let bytes = match contents {
            Ok(b) => b,
            Err(e) => {
                return Media::error(e.clone(), location.clone());
            },
        };
        match read_tag(bytes.as_slice()) {
            Ok(tag) => {
                let title = match tag.title {
                    Some(t) => t,
                    None => "No title".to_owned(),
                };
                Media {
                    id: None,
                    title,
                    artist: tag.artist,
                    album: tag.album,
                    location: location.clone(),
                    genreid: None,
                }
            },
            Err(e) => Media::error(e, location.clone()),
        }
    }

    /// The record of the file at the Unicode path `location`, taking the
    /// path's extension with `Path::extension`; `contents` are the file's
    /// bytes, looked at only when the tag is read.
    pub fn from_location(location: &String, contents: &Result<Vec<u8>, String>) -> (r: Media)
        ensures
            r@ == location_record(location@, read_result(*contents)),
    {
        let ext = extension_of(location.as_str());
        Media::from_path(location, &ext, contents)
    }

    /// The record of the file at `location` whose path has the extension
    /// `ext` (the extension of that same path, as the filesystem gives it): files with an extension of `ID3_EXTS` have their tag read
    /// from `contents`, their bytes; any other file gets a record whose
    /// title is the error message.
    pub fn from_path(location: &String, ext: &Extension, contents: &Result<Vec<u8>, String>) -> (r: Media)
        ensures
            r@ == path_record(location@, *ext, read_result(*contents)),
    {
        if reads_tag(ext) {
            Media::from_id3(location, contents)
        } else {
            Media::error(extension_error(ext), location.clone())
        }
    }
}

} // verus!
