//! What the database queries are made of: the conditions a media query
//! puts on the rows, and how the answers of the database are judged.

use vstd::prelude::*;
use crate::queryobjects::MediaListQuery;
use crate::text::{cut_first, remove_first, same_text};

verus! {

/// A column of the media table that a query narrows.
#[derive(PartialEq, Eq, Structural, Clone, Copy)]
pub enum Column {
    Artist,
    Album,
    Title,
}

/// A condition `column LIKE pattern`.
pub struct Filter {
    pub column: Column,
    pub pattern: String,
}

/// The SQL `LIKE` pattern that matches any text containing `s`.
pub open spec fn like_pattern(s: Seq<char>) -> Seq<char> {
    "%"@ + s + "%"@
}

/// The condition, if any, that an optional search text puts on `column`.
pub open spec fn condition(column: Column, text: Option<String>) -> Seq<(Column, Seq<char>)> {
    match text {
        Some(t) => seq![(column, like_pattern(t@))],
        None => Seq::empty(),
    }
}

/// The conditions of a media query, in order: on the artist, on the album,
/// and the keyword on the title.
pub open spec fn query_conditions(q: MediaListQuery) -> Seq<(Column, Seq<char>)> {
    condition(Column::Artist, q.artist) + condition(Column::Album, q.album) + condition(
        Column::Title,
        q.keyword,
    )
}

/// A query narrows the rows by one condition for each search text it
/// holds, so a query without search texts narrows nothing; each
/// condition's pattern holds its search text between wildcards.
pub proof fn law_one_condition_per_search_text(q: MediaListQuery)
    ensures
        query_conditions(q).len() == (if q.artist is Some { 1int } else { 0 }) + (if q.album is Some {
            1int
        } else {
            0
        }) + (if q.keyword is Some { 1int } else { 0 }),
        q.artist is None && q.album is None && q.keyword is None ==> query_conditions(q)
            == Seq::<(Column, Seq<char>)>::empty(),
        forall|i: int|
            0 <= i < query_conditions(q).len() ==> {
                let (c, p) = #[trigger] query_conditions(q)[i];
                &&& p.len() >= 2
                &&& p[0] == '%'
                &&& p[p.len() - 1] == '%'
            },
{
    assert("%"@ =~= seq!['%']) by {
        reveal_strlit("%");
    }
    assert(q.artist is None && q.album is None && q.keyword is None ==> query_conditions(q)
        =~= Seq::<(Column, Seq<char>)>::empty());
}

/// Each search text narrows its own column, whatever the others are: the
/// conditions on the artist, on the album and on the title are exactly the
/// pattern of the artist, of the album and of the keyword, when given. A
/// pattern is the search text between two `%` wildcards.
pub proof fn law_each_text_narrows_its_column(q: MediaListQuery, p: Seq<char>, s: Seq<char>)
    ensures
        query_conditions(q).contains((Column::Artist, p)) <==> (q.artist matches Some(a) && p
            == like_pattern(a@)),
        query_conditions(q).contains((Column::Album, p)) <==> (q.album matches Some(a) && p
            == like_pattern(a@)),
        query_conditions(q).contains((Column::Title, p)) <==> (q.keyword matches Some(k) && p
            == like_pattern(k@)),
        like_pattern(s).len() == s.len() + 2,
        like_pattern(s)[0] == '%',
        like_pattern(s)[s.len() + 1int] == '%',
        like_pattern(s).subrange(1, s.len() + 1int) == s,
{
    reveal_strlit("%");
    assert("%"@ =~= seq!['%']);
    assert(like_pattern(s).subrange(1, s.len() + 1int) =~= s);
    let ca = condition(Column::Artist, q.artist);
    let cb = condition(Column::Album, q.album);
    let ck = condition(Column::Title, q.keyword);
    broadcast use vstd::seq_lib::lemma_seq_concat_contains_all_elements;

    assert(query_conditions(q) == ca + cb + ck);
    if let Some(a) = q.artist {
        assert(ca[0] == (Column::Artist, like_pattern(a@)));
    }
    if let Some(a) = q.album {
        assert(cb[0] == (Column::Album, like_pattern(a@)));
    }
    if let Some(a) = q.keyword {
        assert(ck[0] == (Column::Title, like_pattern(a@)));
    }
}

/// The value of a list of conditions.
pub open spec fn filters_view(f: Seq<Filter>) -> Seq<(Column, Seq<char>)> {
    f.map_values(|x: Filter| (x.column, x.pattern@))
}

/// The `LIKE` pattern that matches any text containing `s`.
pub fn like_pattern_of(s: &String) -> (r: String)
    ensures
        r@ == like_pattern(s@),
{
    let r = "%".to_owned();
    let r = r.concat(s.as_str());
    r.concat("%")
}

/// The conditions that the query `q` puts on the media rows; a query for a
/// page of media, and the count of media, both narrow the rows by them.
pub fn media_filters(q: &MediaListQuery) -> (r: Vec<Filter>)
    ensures
        filters_view(r@) == query_conditions(*q),
{
    let mut r: Vec<Filter> = Vec::new();
    if let Some(a) = &q.artist {
        r.push(Filter { column: Column::Artist, pattern: like_pattern_of(a) });
    }
    assert(filters_view(r@) == condition(Column::Artist, q.artist));
    if let Some(a) = &q.album {
        r.push(Filter { column: Column::Album, pattern: like_pattern_of(a) });
    }
    assert(filters_view(r@) == condition(Column::Artist, q.artist) + condition(Column::Album, q.album));
    if let Some(k) = &q.keyword {
        r.push(Filter { column: Column::Title, pattern: like_pattern_of(k) });
    }
    r
}

/// The texts of a list of strings.
pub open spec fn texts(v: Seq<String>) -> Seq<Seq<char>> {
    v.map_values(|s: String| s@)
}

/// The locations under which the files at the paths `scanned`, below
/// `root`, are stored.
pub open spec fn scanned_locations(root: Seq<char>, scanned: Seq<Seq<char>>) -> Seq<Seq<char>> {
    scanned.map_values(|s: Seq<char>| cut_first(s, root))
}

/// The stored locations, in order, of which no file was found by the scan
/// of the folder `root`: their rows are to be removed.
pub open spec fn stale(root: Seq<char>, stored: Seq<Seq<char>>, scanned: Seq<Seq<char>>) -> Seq<Seq<char>> {
    stored.filter(|l: Seq<char>| !scanned_locations(root, scanned).contains(l))
}

/// A scan removes exactly the stored locations of files it no longer
/// found: no location of a file found is removed, and every stored
/// location of a file not found is.
pub proof fn law_stale_rows_are_those_not_found(
    root: Seq<char>,
    stored: Seq<Seq<char>>,
    scanned: Seq<Seq<char>>,
)
    ensures
        forall|l: Seq<char>|
            #[trigger] stale(root, stored, scanned).contains(l) <==> stored.contains(l)
                && !scanned_locations(root, scanned).contains(l),
{
    let keep = |l: Seq<char>| !scanned_locations(root, scanned).contains(l);
    assert forall|l: Seq<char>|
        #[trigger] stale(root, stored, scanned).contains(l) <==> stored.contains(l)
            && !scanned_locations(root, scanned).contains(l) by {
        let f = stored.filter(keep);
        if f.contains(l) {
            stored.lemma_filter_contains_rev(keep, l);
            let k = choose|k: int| 0 <= k < f.len() && f[k] == l;
            stored.lemma_filter_pred(keep, k);
        }
        if stored.contains(l) && !scanned_locations(root, scanned).contains(l) {
            let k = choose|k: int| 0 <= k < stored.len() && stored[k] == l;
            stored.lemma_filter_contains(keep, k);
        }
    }
}

/// The row of a file the scan found is never removed: its stored location,
/// the file's path with the first occurrence of the root folder cut out, is
/// not stale. A stored location that no file found has is stale, and only
/// stored locations are.
pub proof fn law_found_files_keep_their_rows(
    root: Seq<char>,
    stored: Seq<Seq<char>>,
    scanned: Seq<Seq<char>>,
)
    ensures
        forall|i: int|
            0 <= i < scanned.len() ==> !stale(root, stored, scanned).contains(
                cut_first(#[trigger] scanned[i], root),
            ),
        forall|l: Seq<char>|
            stored.contains(l) && (forall|i: int|
                0 <= i < scanned.len() ==> cut_first(#[trigger] scanned[i], root) != l)
                ==> #[trigger] stale(root, stored, scanned).contains(l),
        forall|l: Seq<char>| #[trigger] stale(root, stored, scanned).contains(l) ==> stored.contains(l),
        stale(root, stored, scanned).len() <= stored.len(),
{
    law_stale_rows_are_those_not_found(root, stored, scanned);
    let found = scanned_locations(root, scanned);
    assert forall|i: int| 0 <= i < scanned.len() implies !stale(root, stored, scanned).contains(
        cut_first(#[trigger] scanned[i], root),
    ) by {
        assert(found[i] == cut_first(scanned[i], root));
        assert(found.contains(found[i]));
    }
    assert forall|l: Seq<char>|
        stored.contains(l) && (forall|i: int|
            0 <= i < scanned.len() ==> cut_first(#[trigger] scanned[i], root) != l)
            implies #[trigger] stale(root, stored, scanned).contains(l) by {
        if found.contains(l) {
            let k = choose|k: int| 0 <= k < found.len() && found[k] == l;
            assert(found[k] == cut_first(scanned[k], root));
        }
    }
    stored.lemma_filter_len(|l: Seq<char>| !scanned_locations(root, scanned).contains(l));
}

/// Whether `t` is one of the strings of `v`.
fn contains_text(v: &Vec<String>, t: &String) -> (r: bool)
    ensures
        r == texts(v@).contains(t@),
{
    for i in 0..v.len()
        invariant
            forall|j: int| 0 <= j < i ==> v@[j]@ != t@,
    {
        if same_text(v[i].as_str(), t.as_str()) {
            assert(texts(v@)[i as int] == t@);
            return true;
        }
    }
    assert forall|j: int| 0 <= j < texts(v@).len() implies texts(v@)[j] != t@ by {
        assert(texts(v@)[j] == v@[j]@);
    }
    false
}

/// The stored locations (`stored`) of which the scan of the folder
/// `root_folder`, which found the files at the paths `scanned`, found no
/// file any more: the rows to remove.
pub fn stale_locations(root_folder: &String, stored: &Vec<String>, scanned: &Vec<String>) -> (r: Vec<String>)
    ensures
        texts(r@) == stale(root_folder@, texts(stored@), texts(scanned@)),
{
    let mut locations: Vec<String> = Vec::new();
    for i in 0..scanned.len()
        invariant
            texts(locations@) == scanned_locations(root_folder@, texts(scanned@).take(i as int)),
    {
        let ghost before = locations@;
        locations.push(remove_first(scanned[i].as_str(), root_folder.as_str()));
        assert(texts(locations@) =~= texts(before).push(cut_first(scanned@[i as int]@, root_folder@)));
        assert(texts(scanned@).take(i + 1) =~= texts(scanned@).take(i as int).push(scanned@[i as int]@));
        assert(scanned_locations(root_folder@, texts(scanned@).take(i + 1)) =~= scanned_locations(
            root_folder@,
            texts(scanned@).take(i as int),
        ).push(cut_first(scanned@[i as int]@, root_folder@)));
    }
    assert(texts(scanned@).take(scanned.len() as int) =~= texts(scanned@));
    let ghost found = scanned_locations(root_folder@, texts(scanned@));
    let ghost keep = |l: Seq<char>| !found.contains(l);
    let mut r: Vec<String> = Vec::new();
    for i in 0..stored.len()
        invariant
            texts(locations@) == found,
            found == scanned_locations(root_folder@, texts(scanned@)),
            keep == (|l: Seq<char>| !found.contains(l)),
            texts(r@) == texts(stored@).take(i as int).filter(keep),
    {
        let ghost before = r@;
        if !contains_text(&locations, &stored[i]) {
            r.push(stored[i].clone());
            assert(texts(r@) =~= texts(before).push(stored@[i as int]@));
        }
        proof {
            reveal(Seq::filter);
            assert(texts(stored@).take(i + 1).drop_last() =~= texts(stored@).take(i as int));
            assert(texts(stored@).take(i + 1).last() == stored@[i as int]@);
        }
    }
    assert(texts(stored@).take(stored.len() as int) =~= texts(stored@));
    r
}

/// Whether an insert that the database reports as touching `affected` rows
/// stored all `expected` records.
pub fn all_inserted(affected: usize, expected: usize) -> (r: bool)
    ensures
        r == (affected == expected),
{
    affected == expected
}

/// Whether the count of rows with a file's location shows that the file is
/// stored: exactly one row holds it.
pub fn stored_once(count: i64) -> (r: bool)
    ensures
        r == (count == 1),
{
    count == 1
}

} // verus!
