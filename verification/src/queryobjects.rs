//! The queries that clients send.

use vstd::prelude::*;

verus! {

/// A query for a page of media, optionally narrowed by artist, album and a
/// keyword of the title.
pub struct MediaListQuery {
    pub artist: Option<String>,
    pub album: Option<String>,
    pub keyword: Option<String>,
    pub offset: i64,
    pub limit: i64,
}

/// A query for the thumbnail of an album.
pub struct AlbumThumbnailQuery {
    pub album: String,
}

impl MediaListQuery {
    /// The query with no condition, for an empty page at the start.
    pub fn empty() -> (r: Self)
        ensures
            r.artist is None,
            r.album is None,
            r.keyword is None,
            r.offset == 0,
            r.limit == 0,
    {
        MediaListQuery { artist: None, album: None, keyword: None, offset: 0, limit: 0 }
    }

    /// The query for the media among which a thumbnail of the album of
    /// `query` is searched: the first ten media of that album.
    pub fn album_thumbnails(query: AlbumThumbnailQuery) -> (r: Self)
        ensures
            r.artist is None,
            r.album == Some(query.album),
            r.keyword is None,
            r.offset == 0,
            r.limit == 10,
    {
        MediaListQuery { artist: None, album: Some(query.album), keyword: None, offset: 0, limit: 10 }
    }
}

} // verus!
