//! The answers the server gives.

use vstd::prelude::*;
use crate::models::{Media, opt_bytes};

verus! {

/// The answer to a listing of media: the media found, or the error.
pub struct ListMediaResponse {
    pub success: bool,
    pub error: Option<String>,
    pub data: Option<Vec<Media>>,
}

impl ListMediaResponse {
    /// A successful listing of `data`.
    pub fn positive_response(data: Vec<Media>) -> (r: Self)
        ensures
            r.success,
            r.error is None,
            r.data == Some(data),
    {
        ListMediaResponse { success: true, error: None, data: Some(data) }
    }

    /// A failed listing, with the message `error`.
    pub fn negative_response(error: String) -> (r: Self)
        ensures
            !r.success,
            r.error == Some(error),
            r.data is None,
    {
        ListMediaResponse { success: false, error: Some(error), data: None }
    }
}

/// The answer to a request for an album's thumbnail.
pub struct ThumbnailResponse {
    /// The HTTP status.
    pub status: u16,
    /// The `Content-Type` header, if one is sent.
    pub content_type: Option<String>,
    /// The body.
    pub body: Vec<u8>,
}

/// `r` is the answer for the thumbnail `found`: the picture, sent as an
/// image, or an empty "not found" when there is none.
pub open spec fn answers_thumbnail(r: ThumbnailResponse, found: Option<Seq<u8>>) -> bool {
    match found {
        Some(data) => {
            &&& r.status == 200
            &&& r.body@ == data
            &&& r.content_type matches Some(t) && t@ == "image"@
        },
        None => r.status == 404 && r.body@.len() == 0 && r.content_type is None,
    }
}

/// An answer for a thumbnail sends the whole picture, whatever its size,
/// as an image with status 200; with no thumbnail it is an empty 404
/// without a content type.
pub proof fn law_thumbnail_answer_is_whole(r: ThumbnailResponse, found: Option<Seq<u8>>)
    requires
        answers_thumbnail(r, found),
    ensures
        found matches Some(data) ==> {
            &&& r.status == 200
            &&& r.body@.len() == data.len()
            &&& forall|i: int| 0 <= i < data.len() ==> r.body@[i] == data[i]
            &&& r.content_type matches Some(t) && t@ == seq!['i', 'm', 'a', 'g', 'e']
        },
        found is None ==> r.status == 404 && r.body@.len() == 0 && r.content_type is None,
{
    reveal_strlit("image");
}

/// The answer for the thumbnail `found` (nothing when no media of the album
/// had one).
pub fn thumbnail_response(found: Option<Vec<u8>>) -> (r: ThumbnailResponse)
    ensures
        answers_thumbnail(r, opt_bytes(found)),
{
    match found {
        Some(data) => ThumbnailResponse {
            status: 200,
            content_type: Some("image".to_owned()),
            body: data,
        },
        None => ThumbnailResponse { status: 404, content_type: None, body: Vec::new() },
    }
}

/// What the search holds after the thumbnail `offered` of one more media:
/// a thumbnail already found is kept.
pub open spec fn keep_first(found: Option<Seq<u8>>, offered: Option<Seq<u8>>) -> Option<Seq<u8>> {
    if found is Some {
        found
    } else {
        offered
    }
}

/// The first thumbnail among those of the media, in order.
pub open spec fn first_thumbnail(offers: Seq<Option<Seq<u8>>>) -> Option<Seq<u8>>
    decreases offers.len(),
{
    if offers.len() == 0 {
        None
    } else if offers[0] is Some {
        offers[0]
    } else {
        first_thumbnail(offers.drop_first())
    }
}

/// What a search holds after being offered the thumbnails `offers`, one
/// after the other.
pub open spec fn search_after(offers: Seq<Option<Seq<u8>>>) -> Option<Seq<u8>>
    decreases offers.len(),
{
    if offers.len() == 0 {
        None
    } else {
        keep_first(search_after(offers.drop_last()), offers.last())
    }
}

proof fn lemma_first_thumbnail_push(s: Seq<Option<Seq<u8>>>, x: Option<Seq<u8>>)
    ensures
        first_thumbnail(s.push(x)) == keep_first(first_thumbnail(s), x),
    decreases s.len(),
{
    if s.len() == 0 {
        assert(s.push(x).drop_first() =~= Seq::<Option<Seq<u8>>>::empty());
        assert(s.push(x)[0] == x);
        assert(first_thumbnail(s.push(x).drop_first()) is None);
        assert(first_thumbnail(s) is None);
    } else {
        assert(s.push(x)[0] == s[0]);
        assert(s.push(x).drop_first() =~= s.drop_first().push(x));
        lemma_first_thumbnail_push(s.drop_first(), x);
    }
}

/// The first thumbnail among the media's is one of them, every media
/// before it had none, and there is none only when no media had one.
pub proof fn law_first_thumbnail_is_first(offers: Seq<Option<Seq<u8>>>)
    ensures
        first_thumbnail(offers) matches Some(d) ==> exists|i: int|
            0 <= i < offers.len() && offers[i] == Some(d) && forall|j: int|
                0 <= j < i ==> (#[trigger] offers[j]) is None,
        first_thumbnail(offers) is None ==> forall|i: int|
            0 <= i < offers.len() ==> (#[trigger] offers[i]) is None,
    decreases offers.len(),
{
    if offers.len() > 0 {
        let rest = offers.drop_first();
        law_first_thumbnail_is_first(rest);
        if offers[0] is None {
            if first_thumbnail(rest) is Some {
                let d = first_thumbnail(rest)->0;
                let i = choose|i: int|
                    0 <= i < rest.len() && rest[i] == Some(d) && forall|j: int|
                        0 <= j < i ==> (#[trigger] rest[j]) is None;
                assert(offers[i + 1] == Some(d));
                assert forall|j: int| 0 <= j < i + 1 implies (#[trigger] offers[j]) is None by {
                    if j > 0 {
                        assert(offers[j] == rest[j - 1]);
                    }
                }
            } else {
                assert forall|i: int| 0 <= i < offers.len() implies (#[trigger] offers[i]) is None by {
                    if i > 0 {
                        assert(offers[i] == rest[i - 1]);
                    }
                }
            }
        }
    }
}

/// A search offered the thumbnails of an album's media one after the
/// other holds the first of them, as the answer sends it.
pub proof fn law_search_keeps_the_first(offers: Seq<Option<Seq<u8>>>)
    ensures
        search_after(offers) == first_thumbnail(offers),
    decreases offers.len(),
{
    if offers.len() > 0 {
        law_search_keeps_the_first(offers.drop_last());
        lemma_first_thumbnail_push(offers.drop_last(), offers.last());
        assert(offers.drop_last().push(offers.last()) =~= offers);
    }
}

/// The search, among the media of an album, for the first one whose
/// thumbnail can be read.
pub struct ThumbnailSearch {
    found: Option<Vec<u8>>,
}

impl ThumbnailSearch {
    /// The thumbnail found so far.
    pub closed spec fn found(&self) -> Option<Seq<u8>> {
        opt_bytes(self.found)
    }

    /// A search that has found nothing yet.
    pub fn new() -> (r: Self)
        ensures
            r.found() is None,
    {
        ThumbnailSearch { found: None }
    }

    /// Whether a thumbnail has been found, so that no other media need be
    /// read.
    pub fn is_done(&self) -> (r: bool)
        ensures
            r == self.found() is Some,
    {
        self.found.is_some()
    }

    /// Offers the thumbnail of one more media (nothing if it has none).
    pub fn offer(&mut self, thumbnail: Option<Vec<u8>>)
        ensures
            final(self).found() == keep_first(old(self).found(), opt_bytes(thumbnail)),
    {
        if self.found.is_none() {
            self.found = thumbnail;
        }
    }

    /// The answer: the thumbnail found, or "not found".
    pub fn response(self) -> (r: ThumbnailResponse)
        ensures
            answers_thumbnail(r, self.found()),
    {
        thumbnail_response(self.found)
    }
}

} // verus!
