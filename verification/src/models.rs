//! The media records of the library and how they are built from audio files.

use vstd::prelude::*;
use crate::paths::{Extension, extension_of, join_path, unix_extension, unix_join};
use crate::tags::{TagView, id3_tag, read_tag};
use crate::text::{
    cut_first, law_cut_leading, law_without_char, occurs_at, remove_char, remove_first, same_text,
    without_char,
};

verus! {

/// A media row as stored.
pub struct Media {
    pub id: i32,
    pub title: String,
    pub artist: Option<String>,
    pub album: Option<String>,
    pub location: String,
}

/// A media row to be stored.
pub struct NewMedia {
    pub title: String,
    pub artist: Option<String>,
    pub album: Option<String>,
    pub location: String,
}

/// The mathematical value of a [`NewMedia`].
pub struct NewMediaView {
    pub title: Seq<char>,
    pub artist: Option<Seq<char>>,
    pub album: Option<Seq<char>>,
    pub location: Seq<char>,
}

impl View for NewMedia {
    type V = NewMediaView;

    open spec fn view(&self) -> NewMediaView {
        NewMediaView {
            title: self.title@,
            artist: crate::tags::opt_text(self.artist),
            album: crate::tags::opt_text(self.album),
            location: self.location@,
        }
    }
}

/// The extensions of the files whose ID3 tag is read.
pub const ID3_EXTS: [&'static str; 3] = ["mp3", "wav", "aiff"];

/// `e` is one of [`ID3_EXTS`].
pub open spec fn is_id3_ext(e: Seq<char>) -> bool {
    exists|i: int| 0 <= i < 3 && ID3_EXTS[i]@ == e
}

/// The extensions whose files have their tag read are exactly "mp3",
/// "wav" and "aiff", compared character for character.
pub proof fn law_id3_extensions(e: Seq<char>)
    ensures
        is_id3_ext(e) <==> (e == seq!['m', 'p', '3'] || e == seq!['w', 'a', 'v'] || e == seq![
            'a',
            'i',
            'f',
            'f',
        ]),
{
    reveal_strlit("mp3");
    reveal_strlit("wav");
    reveal_strlit("aiff");
    assert(ID3_EXTS[0]@ =~= seq!['m', 'p', '3']);
    assert(ID3_EXTS[1]@ =~= seq!['w', 'a', 'v']);
    assert(ID3_EXTS[2]@ =~= seq!['a', 'i', 'f', 'f']);
}

/// A file has its tag read exactly when its extension is Unicode text and
/// one of the ID3 extensions, both when the extension is given and when it
/// is taken from the file's Unicode path.
pub proof fn law_which_files_are_read(ext: Extension, location: Seq<char>)
    ensures
        ext_reads_tag(ext) <==> (ext matches Extension::Text(t) && is_id3_ext(t@)),
        location_reads_tag(location) <==> (unix_extension(location) matches Some(e) && is_id3_ext(
            e,
        )),
{
}

/// The thumbnail read from a file is the first picture of its tag; there is
/// none when the file or its tag cannot be read or the tag has no picture.
pub proof fn law_first_picture(contents: Result<Seq<u8>, Seq<char>>)
    ensures
        first_picture(contents) matches Some(d) ==> contents matches Ok(b) && id3_tag(b) matches Ok(
            tag,
        ) && tag.pictures.len() > 0 && d == tag.pictures[0],
        (contents matches Ok(b) && id3_tag(b) matches Ok(tag) && tag.pictures.len() > 0)
            ==> first_picture(contents) is Some,
{
}

/// Text read from a tag, without its NUL characters.
pub open spec fn clean_text(s: Seq<char>) -> Seq<char> {
    without_char(s, '\0')
}

/// Optional text read from a tag, without its NUL characters.
pub open spec fn clean_opt(s: Option<Seq<char>>) -> Option<Seq<char>> {
    match s {
        Some(t) => Some(clean_text(t)),
        None => None,
    }
}

/// The error message for a file whose extension `e` is not supported.
pub open spec fn unsupported_message(e: Seq<char>) -> Seq<char> {
    "Unsupported extension '"@ + e + "'"@
}

/// The message for a file name without an extension.
pub open spec fn no_extension_message() -> Seq<char> {
    "No extensions found"@
}

/// The message for an extension that is not Unicode.
pub open spec fn not_unicode_message() -> Seq<char> {
    "Could not convert OsStr to &str"@
}

/// The record built from a tag for the file at `location`, below `root`:
/// the location loses its first occurrence of the root folder, the title
/// defaults to "No title", and tag text loses its NUL characters.
pub open spec fn media_of_tag(root: Seq<char>, location: Seq<char>, tag: TagView) -> NewMediaView {
    NewMediaView {
        title: clean_text(
            match tag.title {
                Some(t) => t,
                None => "No title"@,
            },
        ),
        artist: clean_opt(tag.artist),
        album: clean_opt(tag.album),
        location: cut_first(location, root),
    }
}

/// The value of the bytes of a file, or of the message of the error that
/// reading it gave.
pub open spec fn read_result(r: Result<Vec<u8>, String>) -> Result<Seq<u8>, Seq<char>> {
    match r {
        Ok(b) => Ok(b@),
        Err(e) => Err(e@),
    }
}

/// The value of a record built from a file, or of the error message.
pub open spec fn media_result(r: Result<NewMedia, String>) -> Result<NewMediaView, Seq<char>> {
    match r {
        Ok(m) => Ok(m@),
        Err(e) => Err(e@),
    }
}

/// The record built from the ID3 tag of the file at `location`, whose bytes
/// are `contents` (or the message of the error that reading it gave).
pub open spec fn id3_media(
    root: Seq<char>,
    location: Seq<char>,
    contents: Result<Seq<u8>, Seq<char>>,
) -> Result<NewMediaView, Seq<char>> {
    match contents {
        Err(e) => Err(e),
        Ok(b) => match id3_tag(b) {
            Err(e) => Err(e),
            Ok(tag) => Ok(media_of_tag(root, location, tag)),
        },
    }
}

/// The record built from the file at `location`, below `root`, with
/// extension `ext`: only files with an extension of [`ID3_EXTS`] have their
/// tag read; the others give an error message.
pub open spec fn path_media(
    root: Seq<char>,
    location: Seq<char>,
    ext: Extension,
    contents: Result<Seq<u8>, Seq<char>>,
) -> Result<NewMediaView, Seq<char>> {
    if ext_reads_tag(ext) {
        id3_media(root, location, contents)
    } else {
        Err(extension_message(ext))
    }
}

/// The record built from the file at the Unicode path `location`, below
/// `root`, whose extension is the one `Path::extension` gives for it.
pub open spec fn location_media(
    root: Seq<char>,
    location: Seq<char>,
    contents: Result<Seq<u8>, Seq<char>>,
) -> Result<NewMediaView, Seq<char>> {
    match unix_extension(location) {
        None => Err(no_extension_message()),
        Some(e) => if is_id3_ext(e) {
            id3_media(root, location, contents)
        } else {
            Err(unsupported_message(e))
        },
    }
}

/// The file at the Unicode path `location` has its tag read.
pub open spec fn location_reads_tag(location: Seq<char>) -> bool {
    unix_extension(location) matches Some(e) && is_id3_ext(e)
}

/// A file whose path has the extension `ext` has its tag read.
pub open spec fn ext_reads_tag(ext: Extension) -> bool {
    ext matches Extension::Text(e) && is_id3_ext(e@)
}

/// The message for a file whose extension `ext` is not read.
pub open spec fn extension_message(ext: Extension) -> Seq<char> {
    match ext {
        Extension::Missing => no_extension_message(),
        Extension::NotUnicode => not_unicode_message(),
        Extension::Text(e) => unsupported_message(e@),
    }
}

/// The picture data of the first picture in the tag read from `contents`,
/// if the read succeeds and the tag has a picture.
pub open spec fn first_picture(contents: Result<Seq<u8>, Seq<char>>) -> Option<Seq<u8>> {
    match contents {
        Err(_) => None,
        Ok(b) => match id3_tag(b) {
            Err(_) => None,
            Ok(tag) => if tag.pictures.len() > 0 {
                Some(tag.pictures[0])
            } else {
                None
            },
        },
    }
}

/// The absolute path of the file at `location` below `root`, if its
/// extension is one of [`ID3_EXTS`] (so that a thumbnail can be read from
/// its tag).
pub open spec fn thumbnail_source(root: Seq<char>, location: Seq<char>) -> Option<Seq<char>> {
    let abs = unix_join(root, location);
    match unix_extension(abs) {
        Some(e) => if is_id3_ext(e) {
            Some(abs)
        } else {
            None
        },
        None => None,
    }
}

/// Whether `e` is one of [`ID3_EXTS`].
pub fn is_id3_extension(e: &str) -> (r: bool)
    ensures
        r == is_id3_ext(e@),
{
    let mut i: usize = 0;
    while i < 3
        invariant
            i <= 3,
            forall|j: int| 0 <= j < i ==> ID3_EXTS[j]@ != e@,
        decreases 3 - i,
    {
        if same_text(ID3_EXTS[i], e) {
            return true;
        }
        i = i + 1;
    }
    false
}

/// The text that a record built from a tag holds has no NUL character:
/// neither its title nor its artist nor its album.
pub proof fn law_record_text_has_no_nul(root: Seq<char>, location: Seq<char>, tag: TagView)
    ensures
        !media_of_tag(root, location, tag).title.contains('\0'),
        media_of_tag(root, location, tag).artist matches Some(a) ==> !a.contains('\0'),
        media_of_tag(root, location, tag).album matches Some(a) ==> !a.contains('\0'),
{
    let title = match tag.title {
        Some(t) => t,
        None => "No title"@,
    };
    law_without_char(title, '\0');
    if let Some(a) = tag.artist {
        law_without_char(a, '\0');
    }
    if let Some(a) = tag.album {
        law_without_char(a, '\0');
    }
}

/// A record built from a file whose tag reads well takes each field from
/// the same field of the tag, whatever the tag's other fields hold: the
/// title (or "No title" when the tag has none), the artist and the album,
/// each with its NUL characters taken out; a field the tag lacks stays
/// empty. Its location is the file's path with the first occurrence of the
/// root folder cut out.
pub proof fn law_record_fields_follow_the_tag(
    root: Seq<char>,
    location: Seq<char>,
    bytes: Seq<u8>,
    tag: TagView,
)
    requires
        id3_tag(bytes) == Ok::<TagView, Seq<char>>(tag),
    ensures
        id3_media(root, location, Ok(bytes)) is Ok,
        id3_media(root, location, Ok(bytes)) matches Ok(m) && {
            &&& m.title == without_char(
                match tag.title {
                    Some(t) => t,
                    None => seq!['N', 'o', ' ', 't', 'i', 't', 'l', 'e'],
                },
                '\0',
            )
            &&& (m.artist is Some <==> tag.artist is Some)
            &&& (tag.artist matches Some(a) ==> m.artist == Some(without_char(a, '\0')))
            &&& (m.album is Some <==> tag.album is Some)
            &&& (tag.album matches Some(a) ==> m.album == Some(without_char(a, '\0')))
            &&& m.location == cut_first(location, root)
        },
{
    reveal_strlit("No title");
    assert("No title"@ =~= seq!['N', 'o', ' ', 't', 'i', 't', 'l', 'e']);
}

/// A file below the music folder is stored at its location relative to the
/// folder: the folder followed by the stored location is the file's path.
pub proof fn law_location_below_root(root: Seq<char>, location: Seq<char>, tag: TagView)
    requires
        occurs_at(location, root, 0),
    ensures
        root + media_of_tag(root, location, tag).location == location,
{
    law_cut_leading(location, root);
}

/// A file whose tag is not read gets the same error whatever its bytes:
/// only files with an extension of [`ID3_EXTS`] are read, and a record is
/// built only for them, from a successful read of the file and of its tag.
pub proof fn law_only_id3_files_are_read(
    root: Seq<char>,
    location: Seq<char>,
    ext: Extension,
    contents: Result<Seq<u8>, Seq<char>>,
    other: Result<Seq<u8>, Seq<char>>,
)
    ensures
        !ext_reads_tag(ext) ==> path_media(root, location, ext, contents) == path_media(
            root,
            location,
            ext,
            other,
        ),
        !ext_reads_tag(ext) ==> path_media(root, location, ext, contents) is Err,
        path_media(root, location, ext, contents) is Ok ==> {
            &&& ext_reads_tag(ext)
            &&& contents matches Ok(b) && id3_tag(b) matches Ok(tag)
                && path_media(root, location, ext, contents) == Ok::<NewMediaView, Seq<char>>(
                media_of_tag(root, location, tag),
            )
        },
{
}

/// A record scanned from a file below a root folder that ends in `/`
/// has its thumbnail read from that same file: joining the root with the
/// stored location gives back the file's path, whose extension let the tag
/// be read. (A path with a second `/` right after the root is not covered:
/// there the stored location is absolute and replaces the root.)
pub proof fn law_thumbnail_of_a_scanned_file(
    root: Seq<char>,
    location: Seq<char>,
    contents: Result<Seq<u8>, Seq<char>>,
)
    requires
        root.len() > 0,
        root.last() == '/',
        occurs_at(location, root, 0),
        location.len() > root.len() ==> location[root.len() as int] != '/',
        location_media(root, location, contents) is Ok,
    ensures
        location_media(root, location, contents) matches Ok(m) && unix_join(root, m.location)
            == location && thumbnail_source(root, m.location) == Some(location),
        contents matches Ok(b) && id3_tag(b) matches Ok(tag) && first_picture(contents) == (if tag.pictures.len()
            > 0 {
            Some(tag.pictures[0])
        } else {
            None
        }),
{
    law_cut_leading(location, root);
    let rel = location.skip(root.len() as int);
    assert(root + rel =~= location);
    if rel.len() > 0 {
        assert(rel[0] == location[root.len() as int]);
    }
}

/// The value of optional bytes.
pub open spec fn opt_bytes(b: Option<Vec<u8>>) -> Option<Seq<u8>> {
    match b {
        Some(v) => Some(v@),
        None => None,
    }
}

/// The absolute path of the file at `location` below `root_folder`, if its
/// extension is one of [`ID3_EXTS`], so that a thumbnail may be read from
/// its tag.
pub fn thumbnail_path(root_folder: &String, location: &String) -> (r: Option<String>)
    ensures
        crate::tags::opt_text(r) == thumbnail_source(root_folder@, location@),
{
    let abs = join_path(root_folder.as_str(), location.as_str());
    match extension_of(abs.as_str()) {
        Extension::Text(e) => {
            if is_id3_extension(e.as_str()) {
                Some(abs)
            } else {
                None
            }
        },
        _ => None,
    }
}

/// Whether the tag of a file with extension `ext` is read when the file is
/// scanned: so the caller reads the file's bytes only then.
pub fn reads_tag(ext: &Extension) -> (r: bool)
    ensures
        r == ext_reads_tag(*ext),
{
    match ext {
        Extension::Text(e) => is_id3_extension(e.as_str()),
        _ => false,
    }
}

/// Whether the tag of the file at the Unicode path `location` is read when
/// the file is scanned.
pub fn reads_tag_at(location: &String) -> (r: bool)
    ensures
        r == location_reads_tag(location@),
{
    let ext = extension_of(location.as_str());
    reads_tag(&ext)
}

/// The error message for an unsupported extension.
fn unsupported(e: &String) -> (r: String)
    ensures
        r@ == unsupported_message(e@),
{
    let r = "Unsupported extension '".to_owned();
    let r = r.concat(e.as_str());
    r.concat("'")
}

/// The error message for the extension `ext`.
pub fn extension_error(ext: &Extension) -> (r: String)
    ensures
        r@ == extension_message(*ext),
{
    match ext {
        Extension::Missing => "No extensions found".to_owned(),
        Extension::NotUnicode => "Could not convert OsStr to &str".to_owned(),
        Extension::Text(e) => unsupported(e),
    }
}

impl NewMedia {
    /// Builds the record of the file at `location` (its full path, as
    /// displayed) below `root_folder` from the ID3 tag in the file's bytes
    /// `contents`; a failed read, or a failed tag read, gives its message.
    pub fn from_id3(
        root_folder: &String,
        location: &String,
        contents: &Result<Vec<u8>, String>,
    ) -> (r: Result<NewMedia, String>)
        ensures
            media_result(r) == id3_media(root_folder@, location@, read_result(*contents)),
    {
        let loc = remove_first(location.as_str(), root_folder.as_str());
        let bytes = match contents {
            Ok(b) => b,
            Err(e) => {
                return Err(e.clone());
            },
        };
        match read_tag(bytes.as_slice()) {
            Ok(tag) => {
                let title = match &tag.title {
                    Some(t) => remove_char(t.as_str(), '\0'),
                    None => remove_char("No title", '\0'),
                };
                let album = match &tag.album {
                    Some(t) => Some(remove_char(t.as_str(), '\0')),
                    None => None,
                };
                let artist = match &tag.artist {
                    Some(t) => Some(remove_char(t.as_str(), '\0')),
                    None => None,
                };
                Ok(NewMedia { title, artist, album, location: loc })
            },
            Err(e) => Err(e),
        }
    }

    /// The data of the first picture in the ID3 tag read from a file's bytes
    /// `contents`; nothing if the file or its tag could not be read or the
    /// tag has no picture.
    pub fn id3_thumbnail(contents: &Result<Vec<u8>, String>) -> (r: Option<Vec<u8>>)
        ensures
            opt_bytes(r) == first_picture(read_result(*contents)),
    {
        let bytes = match contents {
            Ok(b) => b,
            Err(_) => {
                return None;
            },
        };
        match read_tag(bytes.as_slice()) {
            Ok(tag) => {
                if tag.pictures.len() > 0 {
                    Some(tag.pictures[0].clone())
                } else {
                    None
                }
            },
            Err(_) => None,
        }
    }

    /// The thumbnail of this record, for music kept below `root_folder`: the
    /// first picture of the ID3 tag of its file, when the file's extension
    /// is one of [`ID3_EXTS`]. `contents` is what reading the file at
    /// [`thumbnail_path`] gave; it is not looked at when there is no such
    /// path.
    pub fn thumbnail(&self, root_folder: &String, contents: &Result<Vec<u8>, String>) -> (r: Option<Vec<u8>>)
        ensures
            thumbnail_source(root_folder@, self.location@) is None ==> r is None,
            thumbnail_source(root_folder@, self.location@) is Some ==> opt_bytes(r) == first_picture(
                read_result(*contents),
            ),
    {
        match thumbnail_path(root_folder, &self.location) {
            Some(_) => NewMedia::id3_thumbnail(contents),
            None => None,
        }
    }

    /// Builds the record of the file at the Unicode path `location`, below
    /// `root_folder`, taking the path's extension with `Path::extension`;
    /// `contents` are the file's bytes, looked at only when the tag is read
    /// (see [`reads_tag_at`]).
    pub fn from_location(
        root_folder: &String,
        location: &String,
        contents: &Result<Vec<u8>, String>,
    ) -> (r: Result<NewMedia, String>)
        ensures
            media_result(r) == location_media(root_folder@, location@, read_result(*contents)),
    {
        let ext = extension_of(location.as_str());
        NewMedia::from_path(root_folder, location, &ext, contents)
    }

    /// Builds the record of the file at `location` (its full path, as
    /// displayed) below `root_folder`, whose path has the extension `ext`:
    /// `ext` is the extension of that same path, as the filesystem gives it
    /// (for a Unicode path, [`NewMedia::from_location`] takes it itself).
    /// Files with an extension of [`ID3_EXTS`] have their tag read from
    /// `contents`, the file's bytes (see [`reads_tag`]); for any other file
    /// `contents` is not looked at and the result is the error message.
    pub fn from_path(
        root_folder: &String,
        location: &String,
        ext: &Extension,
        contents: &Result<Vec<u8>, String>,
    ) -> (r: Result<NewMedia, String>)
        ensures
            media_result(r) == path_media(root_folder@, location@, *ext, read_result(*contents)),
    {
        if reads_tag(ext) {
            NewMedia::from_id3(root_folder, location, contents)
        } else {
            Err(extension_error(ext))
        }
    }
}

} // verus!
