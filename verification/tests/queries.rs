use shmd::db::{all_inserted, like_pattern_of, media_filters, stale_locations, stored_once, Column};
use shmd::models::Media;
use shmd::queryobjects::{AlbumThumbnailQuery, MediaListQuery};
use shmd::responses::{thumbnail_response, ListMediaResponse, ThumbnailSearch};

#[test]
fn empty_query() {
    let q = MediaListQuery::empty();
    assert_eq!(q.artist, None);
    assert_eq!(q.album, None);
    assert_eq!(q.keyword, None);
    assert_eq!(q.offset, 0);
    assert_eq!(q.limit, 0);
    assert!(media_filters(&q).is_empty());
}

#[test]
fn album_thumbnail_query() {
    let q = MediaListQuery::album_thumbnails(AlbumThumbnailQuery { album: "Blue".to_string() });
    assert_eq!(q.album.as_deref(), Some("Blue"));
    assert_eq!(q.artist, None);
    assert_eq!(q.keyword, None);
    assert_eq!(q.offset, 0);
    assert_eq!(q.limit, 10);
}

#[test]
fn filters_of_a_query() {
    let q = MediaListQuery {
        artist: Some("Miles".to_string()),
        album: None,
        keyword: Some("so what".to_string()),
        offset: 5,
        limit: 20,
    };
    let f = media_filters(&q);
    assert_eq!(f.len(), 2);
    assert!(f[0].column == Column::Artist);
    assert_eq!(f[0].pattern, "%Miles%");
    assert!(f[1].column == Column::Title);
    assert_eq!(f[1].pattern, "%so what%");
    let q = MediaListQuery {
        artist: Some("a".to_string()),
        album: Some("b".to_string()),
        keyword: Some("c".to_string()),
        offset: 0,
        limit: 1,
    };
    let f = media_filters(&q);
    assert_eq!(f.len(), 3);
    assert!(f[1].column == Column::Album);
    assert_eq!(f[1].pattern, "%b%");
    assert_eq!(like_pattern_of(&String::new()), "%%");
}

#[test]
fn answers_of_the_database() {
    assert!(all_inserted(3, 3));
    assert!(!all_inserted(2, 3));
    assert!(stored_once(1));
    assert!(!stored_once(0));
    assert!(!stored_once(2));
}

#[test]
fn list_responses() {
    let m = Media { id: 1, title: "t".to_string(), artist: None, album: None, location: "l".to_string() };
    let r = ListMediaResponse::positive_response(vec![m]);
    assert!(r.success);
    assert!(r.error.is_none());
    assert_eq!(r.data.as_ref().unwrap().len(), 1);
    assert_eq!(r.data.as_ref().unwrap()[0].id, 1);
    let r = ListMediaResponse::negative_response("down".to_string());
    assert!(!r.success);
    assert_eq!(r.error.as_deref(), Some("down"));
    assert!(r.data.is_none());
}

#[test]
fn thumbnail_responses() {
    let r = thumbnail_response(Some(vec![1, 2, 3]));
    assert_eq!(r.status, 200);
    assert_eq!(r.content_type.as_deref(), Some("image"));
    assert_eq!(r.body, vec![1, 2, 3]);
    let r = thumbnail_response(None);
    assert_eq!(r.status, 404);
    assert_eq!(r.content_type, None);
    assert!(r.body.is_empty());
}

#[test]
fn thumbnail_search_keeps_the_first() {
    let mut s = ThumbnailSearch::new();
    assert!(!s.is_done());
    s.offer(None);
    assert!(!s.is_done());
    s.offer(Some(vec![1]));
    assert!(s.is_done());
    s.offer(Some(vec![2]));
    let r = s.response();
    assert_eq!(r.status, 200);
    assert_eq!(r.body, vec![1]);
    let mut s = ThumbnailSearch::new();
    s.offer(None);
    let r = s.response();
    assert_eq!(r.status, 404);
    assert!(r.body.is_empty());
}

#[test]
fn stale_rows_are_the_files_not_found() {
    let root = "/music/".to_string();
    let stored: Vec<String> = ["a.mp3", "gone.mp3", "sub/b.ogg", "old/c.wav"].iter().map(|s| s.to_string()).collect();
    let scanned: Vec<String> = ["/music/a.mp3", "/music/sub/b.ogg", "/music/new.mp3"].iter().map(|s| s.to_string()).collect();
    assert_eq!(stale_locations(&root, &stored, &scanned), vec!["gone.mp3", "old/c.wav"]);
    assert!(stale_locations(&root, &vec![], &scanned).is_empty());
    assert_eq!(stale_locations(&root, &stored, &vec![]), stored);
}
