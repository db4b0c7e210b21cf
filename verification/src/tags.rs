//! The ID3 tag of an audio file, read by the `id3` crate from the file's
//! bytes and held as plain values.

use id3::TagLike;
use vstd::prelude::*;

verus! {

/// The parts of an ID3 tag that the library reads.
pub struct TagInfo {
    /// The title (frame TIT2).
    pub title: Option<String>,
    /// The album (frame TALB).
    pub album: Option<String>,
    /// The artist (frame TPE1).
    pub artist: Option<String>,
    /// The data of each attached picture (frames APIC), in frame order.
    pub pictures: Vec<Vec<u8>>,
}

/// The mathematical value of a [`TagInfo`].
pub struct TagView {
    pub title: Option<Seq<char>>,
    pub album: Option<Seq<char>>,
    pub artist: Option<Seq<char>>,
    pub pictures: Seq<Seq<u8>>,
}

/// The text of an optional string.
pub open spec fn opt_text(s: Option<String>) -> Option<Seq<char>> {
    match s {
        Some(t) => Some(t@),
        None => None,
    }
}

impl View for TagInfo {
    type V = TagView;

    open spec fn view(&self) -> TagView {
        TagView {
            title: opt_text(self.title),
            album: opt_text(self.album),
            artist: opt_text(self.artist),
            pictures: self.pictures.deep_view(),
        }
    }
}

/// What `id3::Tag::read_from2` finds in a file whose bytes are `bytes`: the
/// tag's title, album, artist and pictures, or the message of the error.
pub uninterp spec fn id3_tag(bytes: Seq<u8>) -> Result<TagView, Seq<char>>;

/// The value of a tag read.
pub open spec fn tag_result(r: Result<TagInfo, String>) -> Result<TagView, Seq<char>> {
    match r {
        Ok(t) => Ok(t@),
        Err(e) => Err(e@),
    }
}

/// Reads the ID3 tag held in a file's bytes with `id3::Tag::read_from2`
/// (over an in-memory reader) and takes its title, album, artist and picture
/// data; an error is turned into its message. What the tag holds is the
/// name `id3_tag` of the bytes: the parsing itself is not stated.
#[verifier::external_body]
pub(crate) fn read_tag(bytes: &[u8]) -> (r: Result<TagInfo, String>)
    ensures
        tag_result(r) == id3_tag(bytes@),
{
    match id3::Tag::read_from2(std::io::Cursor::new(bytes)) {
        Ok(tag) => Ok(TagInfo {
            title: tag.title().map(|s| s.to_string()),
            album: tag.album().map(|s| s.to_string()),
            artist: tag.artist().map(|s| s.to_string()),
            pictures: tag.pictures().map(|p| p.data.clone()).collect(),
        }),
        Err(e) => Err(e.to_string()),
    }
}

} // verus!
