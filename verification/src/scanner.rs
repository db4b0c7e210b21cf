//! The search for audio files below the music folder: a depth-first walk
//! whose directory listings are supplied by the caller.

use vstd::prelude::*;
use crate::paths::Extension;
use crate::text::same_text;

verus! {

/// The extensions of the files the scanner collects.
pub const AUDIO_EXTS: [&'static str; 7] = ["mp3", "m4a", "ogg", "oga", "opus", "wav", "webm"];

/// `e` is one of [`AUDIO_EXTS`].
pub open spec fn is_audio_ext(e: Seq<char>) -> bool {
    exists|i: int| 0 <= i < 7 && AUDIO_EXTS[i]@ == e
}

/// A file with the extension `ext` is an audio file.
pub open spec fn audio_extension(ext: Extension) -> bool {
    ext matches Extension::Text(e) && is_audio_ext(e@)
}

/// The audio extensions are exactly the seven texts "mp3", "m4a", "ogg",
/// "oga", "opus", "wav" and "webm", compared character for character.
pub proof fn law_audio_extensions(e: Seq<char>)
    ensures
        is_audio_ext(e) <==> (e == seq!['m', 'p', '3'] || e == seq!['m', '4', 'a'] || e == seq![
            'o',
            'g',
            'g',
        ] || e == seq!['o', 'g', 'a'] || e == seq!['o', 'p', 'u', 's'] || e == seq!['w', 'a', 'v']
            || e == seq!['w', 'e', 'b', 'm']),
{
    reveal_strlit("mp3");
    reveal_strlit("m4a");
    reveal_strlit("ogg");
    reveal_strlit("oga");
    reveal_strlit("opus");
    reveal_strlit("wav");
    reveal_strlit("webm");
    assert(AUDIO_EXTS[0]@ =~= seq!['m', 'p', '3']);
    assert(AUDIO_EXTS[1]@ =~= seq!['m', '4', 'a']);
    assert(AUDIO_EXTS[2]@ =~= seq!['o', 'g', 'g']);
    assert(AUDIO_EXTS[3]@ =~= seq!['o', 'g', 'a']);
    assert(AUDIO_EXTS[4]@ =~= seq!['o', 'p', 'u', 's']);
    assert(AUDIO_EXTS[5]@ =~= seq!['w', 'a', 'v']);
    assert(AUDIO_EXTS[6]@ =~= seq!['w', 'e', 'b', 'm']);
}

/// Whether `e` is one of [`AUDIO_EXTS`].
pub fn is_audio_extension(e: &str) -> (r: bool)
    ensures
        r == is_audio_ext(e@),
{
    let mut i: usize = 0;
    while i < 7
        invariant
            i <= 7,
            forall|j: int| 0 <= j < i ==> AUDIO_EXTS[j]@ != e@,
        decreases 7 - i,
    {
        if same_text(AUDIO_EXTS[i], e) {
            return true;
        }
        i = i + 1;
    }
    false
}

/// One entry of a directory listing.
pub struct Entry<P> {
    /// The entry's path.
    pub path: P,
    /// The entry is a directory.
    pub is_dir: bool,
    /// The entry is a regular file.
    pub is_file: bool,
    /// The extension of the entry's path.
    pub extension: Extension,
}

/// Whether a directory entry is an audio file: a regular file whose
/// extension is Unicode text and one of [`AUDIO_EXTS`].
pub fn is_audio_file<P>(entry: &Entry<P>) -> (r: bool)
    ensures
        r == (entry.is_file && audio_extension(entry.extension)),
{
    entry.is_file && match &entry.extension {
        Extension::Text(e) => is_audio_extension(e.as_str()),
        _ => false,
    }
}

/// The entry is a directory, to be searched in turn.
pub open spec fn is_subdir<P>(e: Entry<P>) -> bool {
    e.is_dir
}

/// The entry is an audio file to collect: not a directory, a regular file,
/// with an audio extension.
pub open spec fn is_audio_entry<P>(e: Entry<P>) -> bool {
    !e.is_dir && e.is_file && audio_extension(e.extension)
}

/// An entry is collected exactly when it is a regular file, not a
/// directory, with an extension of Unicode text that is an audio
/// extension; a file without an extension, or whose extension is not
/// Unicode, is never collected.
pub proof fn law_audio_entry<P>(e: Entry<P>)
    ensures
        is_audio_entry(e) <==> (!e.is_dir && e.is_file && (e.extension matches Extension::Text(t)
            && is_audio_ext(t@))),
        e.extension is Missing ==> !audio_extension(e.extension),
        e.extension is NotUnicode ==> !audio_extension(e.extension),
        e.extension matches Extension::Text(t) ==> (audio_extension(e.extension) <==> is_audio_ext(
            t@,
        )),
{
}

/// The paths of the entries that are directories, in listing order.
pub open spec fn subdirs<P>(entries: Seq<Entry<P>>) -> Seq<P> {
    entries.filter(|e: Entry<P>| is_subdir(e)).map_values(|e: Entry<P>| e.path)
}

/// The paths of the entries that are audio files, in listing order.
pub open spec fn audio_files<P>(entries: Seq<Entry<P>>) -> Seq<P> {
    entries.filter(|e: Entry<P>| is_audio_entry(e)).map_values(|e: Entry<P>| e.path)
}

/// Some entry of the listing is an audio file at `p`.
pub open spec fn lists_audio_file<P>(entries: Seq<Entry<P>>, p: P) -> bool {
    exists|j: int| 0 <= j < entries.len() && is_audio_entry(#[trigger] entries[j]) && entries[j].path == p
}

/// Some entry of the listing is a directory at `p`.
pub open spec fn lists_dir<P>(entries: Seq<Entry<P>>, p: P) -> bool {
    exists|j: int| 0 <= j < entries.len() && (#[trigger] entries[j]).is_dir && entries[j].path == p
}

/// A listing's audio files are exactly the paths of its entries that are
/// regular audio files, not directories; its subdirectories are exactly
/// the paths of its directory entries.
pub proof fn law_listing_split<P>(entries: Seq<Entry<P>>)
    ensures
        forall|i: int|
            0 <= i < audio_files(entries).len() ==> lists_audio_file(
                entries,
                #[trigger] audio_files(entries)[i],
            ),
        forall|j: int|
            0 <= j < entries.len() && is_audio_entry(#[trigger] entries[j]) ==> audio_files(
                entries,
            ).contains(entries[j].path),
        forall|i: int|
            0 <= i < subdirs(entries).len() ==> lists_dir(entries, #[trigger] subdirs(entries)[i]),
        forall|j: int|
            0 <= j < entries.len() && (#[trigger] entries[j]).is_dir ==> subdirs(entries).contains(
                entries[j].path,
            ),
{
    let pa = |e: Entry<P>| is_audio_entry(e);
    let pd = |e: Entry<P>| is_subdir(e);
    let fa = entries.filter(pa);
    let fd = entries.filter(pd);
    assert forall|i: int| 0 <= i < audio_files(entries).len() implies lists_audio_file(
        entries,
        #[trigger] audio_files(entries)[i],
    ) by {
        entries.lemma_filter_pred(pa, i);
        assert(fa.contains(fa[i]));
        entries.lemma_filter_contains_rev(pa, fa[i]);
        let j = choose|j: int| 0 <= j < entries.len() && entries[j] == fa[i];
        assert(entries[j].path == audio_files(entries)[i]);
    }
    assert forall|j: int| 0 <= j < entries.len() && is_audio_entry(#[trigger] entries[j]) implies audio_files(
        entries,
    ).contains(entries[j].path) by {
        entries.lemma_filter_contains(pa, j);
        let k = choose|k: int| 0 <= k < fa.len() && fa[k] == entries[j];
        assert(audio_files(entries)[k] == entries[j].path);
    }
    assert forall|i: int| 0 <= i < subdirs(entries).len() implies lists_dir(
        entries,
        #[trigger] subdirs(entries)[i],
    ) by {
        entries.lemma_filter_pred(pd, i);
        assert(fd.contains(fd[i]));
        entries.lemma_filter_contains_rev(pd, fd[i]);
        let j = choose|j: int| 0 <= j < entries.len() && entries[j] == fd[i];
        assert(entries[j].path == subdirs(entries)[i]);
    }
    assert forall|j: int| 0 <= j < entries.len() && (#[trigger] entries[j]).is_dir implies subdirs(
        entries,
    ).contains(entries[j].path) by {
        entries.lemma_filter_contains(pd, j);
        let k = choose|k: int| 0 <= k < fd.len() && fd[k] == entries[j];
        assert(subdirs(entries)[k] == entries[j].path);
    }
}

/// The search is depth first: after a listing, the directories still
/// pending from before stay behind its subdirectories, and the last of
/// those is the next to be listed.
pub proof fn law_depth_first<P>(pending: Seq<P>, entries: Seq<Entry<P>>)
    ensures
        (pending + subdirs(entries)).take(pending.len() as int) == pending,
        subdirs(entries).len() > 0 ==> (pending + subdirs(entries)).last() == subdirs(
            entries,
        ).last(),
{
    assert((pending + subdirs(entries)).take(pending.len() as int) =~= pending);
}

/// A model of the directories below the music folder: `listing(d)` is what
/// listing the directory `d` gives, and `rank` makes every subdirectory rank
/// below its parent, so that the directories form a tree without cycles.
pub open spec fn ranked<P>(listing: spec_fn(P) -> Seq<Entry<P>>, rank: spec_fn(P) -> nat) -> bool {
    forall|d: P, j: int|
        0 <= j < subdirs(listing(d)).len() ==> rank(#[trigger] subdirs(listing(d))[j]) < rank(d)
}

/// Every directory of `ds` ranks below `bound`.
pub open spec fn ranked_below<P>(rank: spec_fn(P) -> nat, ds: Seq<P>, bound: nat) -> bool {
    forall|i: int| 0 <= i < ds.len() ==> rank(#[trigger] ds[i]) < bound
}

/// The audio files below the directory `d`, in the order a depth-first
/// walk finds them: the files of `d`'s own listing, then those below its
/// subdirectories, the last listed first.
pub open spec fn walk_dir<P>(
    listing: spec_fn(P) -> Seq<Entry<P>>,
    rank: spec_fn(P) -> nat,
    d: P,
) -> Seq<P>
    decreases rank(d), 1nat, 0nat,
    when ranked(listing, rank)
{
    audio_files(listing(d)) + walk_stack(listing, rank, subdirs(listing(d)), rank(d))
}

/// The audio files that a depth-first walk finds below the pending
/// directories `ds`, the last of which is listed first; every directory of
/// `ds` ranks below `bound`.
pub open spec fn walk_stack<P>(
    listing: spec_fn(P) -> Seq<Entry<P>>,
    rank: spec_fn(P) -> nat,
    ds: Seq<P>,
    bound: nat,
) -> Seq<P>
    decreases bound, 0nat, ds.len(),
    when ranked(listing, rank) && ranked_below(rank, ds, bound)
{
    if ds.len() == 0 {
        Seq::empty()
    } else {
        walk_dir(listing, rank, ds.last()) + walk_stack(listing, rank, ds.drop_last(), bound)
    }
}

/// What a walk finds below pending directories does not depend on the
/// bound their ranks are held under.
proof fn lemma_walk_stack_bound<P>(
    listing: spec_fn(P) -> Seq<Entry<P>>,
    rank: spec_fn(P) -> nat,
    ds: Seq<P>,
    b1: nat,
    b2: nat,
)
    requires
        ranked(listing, rank),
        ranked_below(rank, ds, b1),
        ranked_below(rank, ds, b2),
    ensures
        walk_stack(listing, rank, ds, b1) == walk_stack(listing, rank, ds, b2),
    decreases ds.len(),
{
    if ds.len() > 0 {
        assert(ranked_below(rank, ds.drop_last(), b1));
        assert(ranked_below(rank, ds.drop_last(), b2));
        lemma_walk_stack_bound(listing, rank, ds.drop_last(), b1, b2);
    }
}

/// Pending directories pushed after others are walked before them.
proof fn lemma_walk_stack_append<P>(
    listing: spec_fn(P) -> Seq<Entry<P>>,
    rank: spec_fn(P) -> nat,
    a: Seq<P>,
    b: Seq<P>,
    bound: nat,
)
    requires
        ranked(listing, rank),
        ranked_below(rank, a, bound),
        ranked_below(rank, b, bound),
    ensures
        ranked_below(rank, a + b, bound),
        walk_stack(listing, rank, a + b, bound) == walk_stack(listing, rank, b, bound) + walk_stack(
            listing,
            rank,
            a,
            bound,
        ),
    decreases b.len(),
{
    assert forall|i: int| 0 <= i < (a + b).len() implies rank(#[trigger] (a + b)[i]) < bound by {
        if i < a.len() {
            assert((a + b)[i] == a[i]);
        } else {
            assert((a + b)[i] == b[i - a.len()]);
        }
    }
    if b.len() == 0 {
        assert(a + b =~= a);
        assert(walk_stack(listing, rank, b, bound) =~= Seq::<P>::empty());
        assert(walk_stack(listing, rank, a + b, bound) =~= walk_stack(listing, rank, a, bound));
    } else {
        assert((a + b).drop_last() =~= a + b.drop_last());
        assert((a + b).last() == b.last());
        assert(ranked_below(rank, b.drop_last(), bound));
        lemma_walk_stack_append(listing, rank, a, b.drop_last(), bound);
        assert(walk_stack(listing, rank, a + b, bound) == walk_dir(listing, rank, b.last())
            + walk_stack(listing, rank, a + b.drop_last(), bound));
        assert(walk_stack(listing, rank, b, bound) == walk_dir(listing, rank, b.last())
            + walk_stack(listing, rank, b.drop_last(), bound));
        assert(walk_stack(listing, rank, a + b, bound) =~= walk_stack(listing, rank, b, bound)
            + walk_stack(listing, rank, a, bound));
    }
}

/// One step of the walk, listing the last pending directory as
/// [`AudioScan::next_dir`] and [`AudioScan::visit`] do, keeps what has been
/// found followed by what the walk still finds below the pending
/// directories the same. A walk that starts at `root` has found nothing and
/// still finds [`walk_dir`] of `root`, and once nothing is pending it finds
/// nothing more: so, on a tree, the walk ends having found exactly the
/// audio files below `root`, in depth-first order.
pub proof fn law_walk_step<P>(
    listing: spec_fn(P) -> Seq<Entry<P>>,
    rank: spec_fn(P) -> nat,
    bound: nat,
    pending: Seq<P>,
    found: Seq<P>,
)
    requires
        ranked(listing, rank),
        ranked_below(rank, pending, bound),
        pending.len() > 0,
    ensures
        ranked_below(rank, pending.drop_last() + subdirs(listing(pending.last())), bound),
        found + audio_files(listing(pending.last())) + walk_stack(
            listing,
            rank,
            pending.drop_last() + subdirs(listing(pending.last())),
            bound,
        ) == found + walk_stack(listing, rank, pending, bound),
{
    let d = pending.last();
    let subs = subdirs(listing(d));
    assert(rank(d) < bound) by {
        assert(rank(pending[pending.len() - 1]) < bound);
    }
    assert(ranked_below(rank, subs, rank(d))) by {
        assert forall|j: int| 0 <= j < subs.len() implies rank(#[trigger] subs[j]) < rank(d) by {
            assert(rank(subdirs(listing(d))[j]) < rank(d));
        }
    }
    assert(ranked_below(rank, subs, bound));
    assert(ranked_below(rank, pending.drop_last(), bound));
    lemma_walk_stack_append(listing, rank, pending.drop_last(), subs, bound);
    lemma_walk_stack_bound(listing, rank, subs, rank(d), bound);
    assert(walk_stack(listing, rank, pending, bound) == walk_dir(listing, rank, d) + walk_stack(
        listing,
        rank,
        pending.drop_last(),
        bound,
    ));
    assert(found + audio_files(listing(d)) + walk_stack(listing, rank, pending.drop_last() + subs, bound)
        =~= found + walk_stack(listing, rank, pending, bound));
}

/// A walk starts at `root` with nothing found and all of [`walk_dir`] of
/// `root` still to find, and ends, with nothing pending, having nothing
/// more to find.
pub proof fn law_walk_start_and_end<P>(
    listing: spec_fn(P) -> Seq<Entry<P>>,
    rank: spec_fn(P) -> nat,
    root: P,
    bound: nat,
)
    requires
        ranked(listing, rank),
    ensures
        ranked_below(rank, seq![root], rank(root) + 1),
        walk_stack(listing, rank, seq![root], rank(root) + 1) == walk_dir(listing, rank, root),
        walk_stack(listing, rank, Seq::<P>::empty(), bound) == Seq::<P>::empty(),
{
    let s = seq![root];
    assert(ranked_below(rank, s, rank(root) + 1)) by {
        assert forall|i: int| 0 <= i < s.len() implies rank(#[trigger] s[i]) < rank(root) + 1 by {
            assert(s[i] == root);
        }
    }
    assert(s.drop_last() =~= Seq::<P>::empty());
    assert(ranked_below(rank, Seq::<P>::empty(), bound));
    assert(ranked_below(rank, s.drop_last(), rank(root) + 1));
    assert(s.last() == root);
    assert(walk_stack(listing, rank, s.drop_last(), rank(root) + 1) == Seq::<P>::empty());
    assert(walk_stack(listing, rank, s, rank(root) + 1) == walk_dir(listing, rank, root)
        + walk_stack(listing, rank, s.drop_last(), rank(root) + 1));
    assert(walk_stack(listing, rank, s, rank(root) + 1) =~= walk_dir(listing, rank, root));
}

/// The number of directories a walk lists from `d` on: `d` itself and
/// every directory below it.
pub open spec fn dirs_dir<P>(listing: spec_fn(P) -> Seq<Entry<P>>, rank: spec_fn(P) -> nat, d: P) -> nat
    decreases rank(d), 1nat, 0nat,
    when ranked(listing, rank)
{
    1 + dirs_stack(listing, rank, subdirs(listing(d)), rank(d))
}

/// The number of directories a walk lists from the pending directories
/// `ds` on, every one of which ranks below `bound`.
pub open spec fn dirs_stack<P>(
    listing: spec_fn(P) -> Seq<Entry<P>>,
    rank: spec_fn(P) -> nat,
    ds: Seq<P>,
    bound: nat,
) -> nat
    decreases bound, 0nat, ds.len(),
    when ranked(listing, rank) && ranked_below(rank, ds, bound)
{
    if ds.len() == 0 {
        0
    } else {
        dirs_dir(listing, rank, ds.last()) + dirs_stack(listing, rank, ds.drop_last(), bound)
    }
}

proof fn lemma_dirs_stack_bound<P>(
    listing: spec_fn(P) -> Seq<Entry<P>>,
    rank: spec_fn(P) -> nat,
    ds: Seq<P>,
    b1: nat,
    b2: nat,
)
    requires
        ranked(listing, rank),
        ranked_below(rank, ds, b1),
        ranked_below(rank, ds, b2),
    ensures
        dirs_stack(listing, rank, ds, b1) == dirs_stack(listing, rank, ds, b2),
    decreases ds.len(),
{
    if ds.len() > 0 {
        assert(ranked_below(rank, ds.drop_last(), b1));
        assert(ranked_below(rank, ds.drop_last(), b2));
        lemma_dirs_stack_bound(listing, rank, ds.drop_last(), b1, b2);
    }
}

proof fn lemma_dirs_stack_append<P>(
    listing: spec_fn(P) -> Seq<Entry<P>>,
    rank: spec_fn(P) -> nat,
    a: Seq<P>,
    b: Seq<P>,
    bound: nat,
)
    requires
        ranked(listing, rank),
        ranked_below(rank, a, bound),
        ranked_below(rank, b, bound),
    ensures
        ranked_below(rank, a + b, bound),
        dirs_stack(listing, rank, a + b, bound) == dirs_stack(listing, rank, b, bound) + dirs_stack(
            listing,
            rank,
            a,
            bound,
        ),
    decreases b.len(),
{
    assert forall|i: int| 0 <= i < (a + b).len() implies rank(#[trigger] (a + b)[i]) < bound by {
        if i < a.len() {
            assert((a + b)[i] == a[i]);
        } else {
            assert((a + b)[i] == b[i - a.len()]);
        }
    }
    if b.len() == 0 {
        assert(a + b =~= a);
    } else {
        assert((a + b).drop_last() =~= a + b.drop_last());
        assert((a + b).last() == b.last());
        assert(ranked_below(rank, b.drop_last(), bound));
        lemma_dirs_stack_append(listing, rank, a, b.drop_last(), bound);
    }
}

/// The walk ends: each step (listing the last pending directory) lowers the
/// number of directories still to list by one, and that number is not zero
/// while a directory is pending. A walk from `root` therefore lists
/// exactly [`dirs_dir`] of `root` directories, each directory of the tree
/// once, and then has nothing pending.
pub proof fn law_walk_ends<P>(
    listing: spec_fn(P) -> Seq<Entry<P>>,
    rank: spec_fn(P) -> nat,
    bound: nat,
    pending: Seq<P>,
    root: P,
)
    requires
        ranked(listing, rank),
        ranked_below(rank, pending, bound),
    ensures
        pending.len() > 0 ==> dirs_stack(listing, rank, pending, bound) > 0,
        pending.len() > 0 ==> dirs_stack(
            listing,
            rank,
            pending.drop_last() + subdirs(listing(pending.last())),
            bound,
        ) + 1 == dirs_stack(listing, rank, pending, bound),
        dirs_stack(listing, rank, seq![root], rank(root) + 1) == dirs_dir(listing, rank, root),
{
    if pending.len() > 0 {
        let d = pending.last();
        let subs = subdirs(listing(d));
        assert(rank(d) < bound) by {
            assert(rank(pending[pending.len() - 1]) < bound);
        }
        assert(ranked_below(rank, subs, rank(d))) by {
            assert forall|j: int| 0 <= j < subs.len() implies rank(#[trigger] subs[j]) < rank(d) by {
                assert(rank(subdirs(listing(d))[j]) < rank(d));
            }
        }
        assert(ranked_below(rank, subs, bound));
        assert(ranked_below(rank, pending.drop_last(), bound));
        lemma_dirs_stack_append(listing, rank, pending.drop_last(), subs, bound);
        lemma_dirs_stack_bound(listing, rank, subs, rank(d), bound);
        assert(dirs_stack(listing, rank, pending, bound) == dirs_dir(listing, rank, d) + dirs_stack(
            listing,
            rank,
            pending.drop_last(),
            bound,
        ));
        assert(dirs_dir(listing, rank, d) == 1 + dirs_stack(listing, rank, subs, rank(d)));
    }
    let s = seq![root];
    assert(ranked_below(rank, s, rank(root) + 1)) by {
        assert forall|i: int| 0 <= i < s.len() implies rank(#[trigger] s[i]) < rank(root) + 1 by {
            assert(s[i] == root);
        }
    }
    assert(s.drop_last() =~= Seq::<P>::empty());
    assert(ranked_below(rank, s.drop_last(), rank(root) + 1));
    assert(s.last() == root);
    assert(dirs_stack(listing, rank, s.drop_last(), rank(root) + 1) == 0);
    assert(dirs_stack(listing, rank, s, rank(root) + 1) == dirs_dir(listing, rank, root) + dirs_stack(
        listing,
        rank,
        s.drop_last(),
        rank(root) + 1,
    ));
}

/// `e` is the directory `d` or a directory below it.
pub open spec fn below<P>(
    listing: spec_fn(P) -> Seq<Entry<P>>,
    rank: spec_fn(P) -> nat,
    d: P,
    e: P,
) -> bool
    decreases rank(d),
    when ranked(listing, rank)
{
    d == e || exists|j: int|
        0 <= j < subdirs(listing(d)).len() && below(
            listing,
            rank,
            #[trigger] subdirs(listing(d))[j],
            e,
        )
}

/// Some directory at or below `d` lists an audio file at `p`.
pub open spec fn audio_below<P>(
    listing: spec_fn(P) -> Seq<Entry<P>>,
    rank: spec_fn(P) -> nat,
    d: P,
    p: P,
) -> bool {
    exists|e: P| #[trigger] below(listing, rank, d, e) && audio_files(listing(e)).contains(p)
}

/// Some directory at or below one of `ds` lists an audio file at `p`.
pub open spec fn audio_below_any<P>(
    listing: spec_fn(P) -> Seq<Entry<P>>,
    rank: spec_fn(P) -> nat,
    ds: Seq<P>,
    p: P,
) -> bool {
    exists|i: int| 0 <= i < ds.len() && #[trigger] audio_below(listing, rank, ds[i], p)
}

/// The walk below `d` finds exactly the audio files listed at or below
/// `d`; the walk below pending directories finds exactly those listed at
/// or below one of them.
pub proof fn law_walk_finds_exactly_the_files_below<P>(
    listing: spec_fn(P) -> Seq<Entry<P>>,
    rank: spec_fn(P) -> nat,
    ds: Seq<P>,
    bound: nat,
    p: P,
)
    requires
        ranked(listing, rank),
        ranked_below(rank, ds, bound),
    ensures
        walk_stack(listing, rank, ds, bound).contains(p) <==> audio_below_any(listing, rank, ds, p),
        ds.len() == 1 ==> (walk_dir(listing, rank, ds[0]).contains(p) <==> audio_below(
            listing,
            rank,
            ds[0],
            p,
        )),
    decreases bound, 0nat, ds.len(),
{
    broadcast use vstd::seq_lib::lemma_seq_concat_contains_all_elements;

    if ds.len() > 0 {
        let d = ds.last();
        assert(rank(ds[ds.len() - 1]) < bound);
        assert(ranked_below(rank, ds.drop_last(), bound));
        lemma_walk_dir_finds_exactly_the_files_below(listing, rank, d, p);
        law_walk_finds_exactly_the_files_below(listing, rank, ds.drop_last(), bound, p);
        if audio_below_any(listing, rank, ds, p) {
            let i = choose|i: int| 0 <= i < ds.len() && #[trigger] audio_below(listing, rank, ds[i], p);
            if i < ds.len() - 1 {
                assert(ds.drop_last()[i] == ds[i]);
                assert(audio_below_any(listing, rank, ds.drop_last(), p));
            }
        }
        if audio_below_any(listing, rank, ds.drop_last(), p) {
            let i = choose|i: int|
                0 <= i < ds.drop_last().len() && #[trigger] audio_below(listing, rank, ds.drop_last()[i], p);
            assert(ds[i] == ds.drop_last()[i]);
            assert(audio_below_any(listing, rank, ds, p));
        }
        if audio_below(listing, rank, d, p) {
            assert(audio_below(listing, rank, ds[ds.len() - 1], p));
        }
        if ds.len() == 1 {
            assert(ds.drop_last().len() == 0);
            assert(!audio_below_any(listing, rank, ds.drop_last(), p));
        }
    }
}

proof fn lemma_walk_dir_finds_exactly_the_files_below<P>(
    listing: spec_fn(P) -> Seq<Entry<P>>,
    rank: spec_fn(P) -> nat,
    d: P,
    p: P,
)
    requires
        ranked(listing, rank),
    ensures
        walk_dir(listing, rank, d).contains(p) <==> audio_below(listing, rank, d, p),
    decreases rank(d), 1nat, 0nat,
{
    broadcast use vstd::seq_lib::lemma_seq_concat_contains_all_elements;

    let subs = subdirs(listing(d));
    assert(ranked_below(rank, subs, rank(d))) by {
        assert forall|j: int| 0 <= j < subs.len() implies rank(#[trigger] subs[j]) < rank(d) by {
            assert(rank(subdirs(listing(d))[j]) < rank(d));
        }
    }
    law_walk_finds_exactly_the_files_below(listing, rank, subs, rank(d), p);
    assert(walk_dir(listing, rank, d) == audio_files(listing(d)) + walk_stack(listing, rank, subs, rank(d)));
    if audio_below(listing, rank, d, p) {
        let e = choose|e: P| #[trigger] below(listing, rank, d, e) && audio_files(listing(e)).contains(p);
        if d != e {
            let j = choose|j: int| 0 <= j < subs.len() && below(listing, rank, subs[j], e);
            assert(audio_below(listing, rank, subs[j], p));
            assert(audio_below_any(listing, rank, subs, p));
        }
    }
    if audio_files(listing(d)).contains(p) {
        assert(below(listing, rank, d, d));
        assert(audio_below(listing, rank, d, p));
    }
    if audio_below_any(listing, rank, subs, p) {
        let j = choose|j: int| 0 <= j < subs.len() && #[trigger] audio_below(listing, rank, subs[j], p);
        let e = choose|e: P| #[trigger] below(listing, rank, subs[j], e) && audio_files(listing(e)).contains(p);
        assert(below(listing, rank, d, e));
        assert(audio_below(listing, rank, d, p));
    }
}

/// The listings form the tree of paths made of names: each entry of the
/// listing of `d` has the path `d` followed by one more name, and no two
/// entries of one listing have the same path.
pub open spec fn named_tree<N>(listing: spec_fn(Seq<N>) -> Seq<Entry<Seq<N>>>) -> bool {
    &&& forall|d: Seq<N>, i: int|
        0 <= i < listing(d).len() ==> (#[trigger] listing(d)[i]).path.len() == d.len() + 1
            && listing(d)[i].path.take(d.len() as int) == d
    &&& forall|d: Seq<N>, i: int, j: int|
        0 <= i < listing(d).len() && 0 <= j < listing(d).len() && i != j ==> (
        #[trigger] listing(d)[i]).path != (#[trigger] listing(d)[j]).path
}

/// The paths of the entries of a listing that satisfy `pred` are distinct,
/// when all the listing's paths are.
proof fn lemma_kept_paths_distinct<P>(entries: Seq<Entry<P>>, pred: spec_fn(Entry<P>) -> bool)
    requires
        forall|i: int, j: int|
            0 <= i < entries.len() && 0 <= j < entries.len() && i != j ==> (
            #[trigger] entries[i]).path != (#[trigger] entries[j]).path,
    ensures
        entries.filter(pred).map_values(|e: Entry<P>| e.path).no_duplicates(),
    decreases entries.len(),
{
    reveal(Seq::filter);
    if entries.len() > 0 {
        let rest = entries.drop_last();
        let last = entries.last();
        lemma_kept_paths_distinct(rest, pred);
        let m = rest.filter(pred).map_values(|e: Entry<P>| e.path);
        if pred(last) {
            assert(entries.filter(pred) == rest.filter(pred).push(last));
            assert(entries.filter(pred).map_values(|e: Entry<P>| e.path) =~= m.push(last.path));
            assert forall|k: int| 0 <= k < m.len() implies m[k] != last.path by {
                let f = rest.filter(pred);
                assert(f.contains(f[k]));
                rest.lemma_filter_contains_rev(pred, f[k]);
                let j = choose|j: int| 0 <= j < rest.len() && rest[j] == f[k];
                assert(entries[j] == rest[j]);
                assert(entries[entries.len() - 1] == last);
            }
        } else {
            assert(entries.filter(pred) == rest.filter(pred));
        }
    }
}

/// Every directory at or below `d` has a path that starts with `d`.
proof fn lemma_below_extends<N>(
    listing: spec_fn(Seq<N>) -> Seq<Entry<Seq<N>>>,
    rank: spec_fn(Seq<N>) -> nat,
    d: Seq<N>,
    e: Seq<N>,
)
    requires
        ranked(listing, rank),
        named_tree(listing),
        below(listing, rank, d, e),
    ensures
        e.len() >= d.len(),
        e.take(d.len() as int) == d,
    decreases rank(d),
{
    if d != e {
        let subs = subdirs(listing(d));
        let j = choose|j: int| 0 <= j < subs.len() && below(listing, rank, #[trigger] subs[j], e);
        assert(rank(subdirs(listing(d))[j]) < rank(d));
        lemma_below_extends(listing, rank, subs[j], e);
        law_listing_split(listing(d));
        assert(lists_dir(listing(d), subs[j]));
        let k = choose|k: int|
            0 <= k < listing(d).len() && (#[trigger] listing(d)[k]).is_dir && listing(d)[k].path
                == subs[j];
        assert(listing(d)[k].path.len() == d.len() + 1);
        assert(e.take(d.len() as int) =~= e.take(subs[j].len() as int).take(d.len() as int));
    } else {
        assert(e.take(d.len() as int) =~= d);
    }
}

/// An audio file listed at or below `d` has a path that starts with `d`
/// and is longer.
proof fn lemma_audio_below_extends<N>(
    listing: spec_fn(Seq<N>) -> Seq<Entry<Seq<N>>>,
    rank: spec_fn(Seq<N>) -> nat,
    d: Seq<N>,
    p: Seq<N>,
)
    requires
        ranked(listing, rank),
        named_tree(listing),
        audio_below(listing, rank, d, p),
    ensures
        p.len() > d.len(),
        p.take(d.len() as int) == d,
{
    let e = choose|e: Seq<N>| #[trigger] below(listing, rank, d, e) && audio_files(listing(e)).contains(p);
    lemma_below_extends(listing, rank, d, e);
    law_listing_split(listing(e));
    let i = choose|i: int| 0 <= i < audio_files(listing(e)).len() && #[trigger] audio_files(listing(e))[i] == p;
    assert(lists_audio_file(listing(e), audio_files(listing(e))[i]));
    let k = choose|k: int|
        0 <= k < listing(e).len() && is_audio_entry(#[trigger] listing(e)[k]) && listing(e)[k].path
            == p;
    assert(listing(e)[k].path.len() == e.len() + 1);
    assert(p.take(d.len() as int) =~= p.take(e.len() as int).take(d.len() as int));
}

/// On the tree of paths, the walk below `d` finds each audio file once.
proof fn lemma_walk_dir_once<N>(
    listing: spec_fn(Seq<N>) -> Seq<Entry<Seq<N>>>,
    rank: spec_fn(Seq<N>) -> nat,
    d: Seq<N>,
)
    requires
        ranked(listing, rank),
        named_tree(listing),
    ensures
        walk_dir(listing, rank, d).no_duplicates(),
    decreases rank(d), 1nat, 0nat,
{
    let l = listing(d);
    let subs = subdirs(l);
    assert(ranked_below(rank, subs, rank(d))) by {
        assert forall|j: int| 0 <= j < subs.len() implies rank(#[trigger] subs[j]) < rank(d) by {
            assert(rank(subdirs(listing(d))[j]) < rank(d));
        }
    }
    assert forall|i: int, j: int| 0 <= i < l.len() && 0 <= j < l.len() && i != j implies (
    #[trigger] l[i]).path != (#[trigger] l[j]).path by {
        assert(listing(d)[i].path != listing(d)[j].path);
    }
    lemma_kept_paths_distinct(l, |e: Entry<Seq<N>>| is_audio_entry(e));
    lemma_kept_paths_distinct(l, |e: Entry<Seq<N>>| is_subdir(e));
    law_listing_split(l);
    assert forall|j: int| 0 <= j < subs.len() implies (#[trigger] subs[j]).len() == d.len() + 1 by {
        assert(lists_dir(l, subs[j]));
        let k = choose|k: int| 0 <= k < l.len() && (#[trigger] l[k]).is_dir && l[k].path == subs[j];
        assert(listing(d)[k].path.len() == d.len() + 1);
    }
    lemma_walk_stack_once(listing, rank, subs, rank(d), d.len() + 1);
    let a = audio_files(l);
    let w = walk_stack(listing, rank, subs, rank(d));
    assert forall|i: int, j: int| 0 <= i < a.len() && 0 <= j < w.len() implies a[i] != w[j] by {
        assert(lists_audio_file(l, a[i]));
        let k = choose|k: int| 0 <= k < l.len() && is_audio_entry(#[trigger] l[k]) && l[k].path == a[i];
        assert(listing(d)[k].path.len() == d.len() + 1);
        law_walk_finds_exactly_the_files_below(listing, rank, subs, rank(d), w[j]);
        assert(w.contains(w[j]));
        let t = choose|t: int| 0 <= t < subs.len() && #[trigger] audio_below(listing, rank, subs[t], w[j]);
        lemma_audio_below_extends(listing, rank, subs[t], w[j]);
    }
    vstd::seq_lib::lemma_no_dup_in_concat(a, w);
}

/// On the tree of paths, the walk below distinct pending directories whose
/// paths have the same length finds each audio file once.
proof fn lemma_walk_stack_once<N>(
    listing: spec_fn(Seq<N>) -> Seq<Entry<Seq<N>>>,
    rank: spec_fn(Seq<N>) -> nat,
    ds: Seq<Seq<N>>,
    bound: nat,
    n: nat,
)
    requires
        ranked(listing, rank),
        named_tree(listing),
        ranked_below(rank, ds, bound),
        ds.no_duplicates(),
        forall|i: int| 0 <= i < ds.len() ==> (#[trigger] ds[i]).len() == n,
    ensures
        walk_stack(listing, rank, ds, bound).no_duplicates(),
    decreases bound, 0nat, ds.len(),
{
    if ds.len() > 0 {
        let d = ds.last();
        let rest = ds.drop_last();
        assert(rank(ds[ds.len() - 1]) < bound);
        assert(ranked_below(rank, rest, bound));
        assert(forall|i: int| 0 <= i < rest.len() ==> rest[i] == ds[i]);
        lemma_walk_dir_once(listing, rank, d);
        lemma_walk_stack_once(listing, rank, rest, bound, n);
        let a = walk_dir(listing, rank, d);
        let w = walk_stack(listing, rank, rest, bound);
        assert forall|i: int, j: int| 0 <= i < a.len() && 0 <= j < w.len() implies a[i] != w[j] by {
            let one = seq![d];
            assert(one[0] == d);
            assert(ranked_below(rank, one, bound));
            law_walk_finds_exactly_the_files_below(listing, rank, one, bound, a[i]);
            assert(a.contains(a[i]));
            assert(audio_below(listing, rank, d, a[i]));
            lemma_audio_below_extends(listing, rank, d, a[i]);
            law_walk_finds_exactly_the_files_below(listing, rank, rest, bound, w[j]);
            assert(w.contains(w[j]));
            let t = choose|t: int| 0 <= t < rest.len() && #[trigger] audio_below(listing, rank, rest[t], w[j]);
            lemma_audio_below_extends(listing, rank, rest[t], w[j]);
            assert(ds[t] != ds[ds.len() - 1]);
        }
        vstd::seq_lib::lemma_no_dup_in_concat(a, w);
    }
}

/// On the tree of paths, every audio file a walk from `root` finds lies
/// below `root`: its path is `root` followed by more names.
pub proof fn law_found_paths_start_with_root<N>(
    listing: spec_fn(Seq<N>) -> Seq<Entry<Seq<N>>>,
    rank: spec_fn(Seq<N>) -> nat,
    root: Seq<N>,
    p: Seq<N>,
)
    requires
        ranked(listing, rank),
        named_tree(listing),
        walk_dir(listing, rank, root).contains(p),
    ensures
        p.len() > root.len(),
        p.take(root.len() as int) == root,
{
    let one = seq![root];
    assert(one[0] == root);
    assert(ranked_below(rank, one, rank(root) + 1));
    law_walk_finds_exactly_the_files_below(listing, rank, one, rank(root) + 1, p);
    lemma_audio_below_extends(listing, rank, root, p);
}

/// On the tree of paths, a walk finds each audio file below its root
/// once: with [`law_walk_finds_exactly_the_files_below`], [`law_walk_step`]
/// and [`law_walk_start_and_end`], a walk from `root` that runs until
/// nothing is pending collects exactly the audio files below `root`, each
/// once, in depth-first order.
pub proof fn law_walk_finds_each_file_once<N>(
    listing: spec_fn(Seq<N>) -> Seq<Entry<Seq<N>>>,
    rank: spec_fn(Seq<N>) -> nat,
    root: Seq<N>,
)
    requires
        ranked(listing, rank),
        named_tree(listing),
    ensures
        walk_dir(listing, rank, root).no_duplicates(),
{
    lemma_walk_dir_once(listing, rank, root);
}

/// The state of a search for audio files: the directories still to list,
/// the last one to be listed first, and the audio files found so far.
pub struct AudioScan<P> {
    to_check: Vec<P>,
    paths: Vec<P>,
}

impl<P> AudioScan<P> {
    /// The directories still to be listed; the last is listed next.
    pub closed spec fn pending(&self) -> Seq<P> {
        self.to_check@
    }

    /// The audio files found so far, in the order found.
    pub closed spec fn found(&self) -> Seq<P> {
        self.paths@
    }

    /// A search that starts at the folder `root`.
    pub fn new(root: P) -> (r: Self)
        ensures
            r.pending() == seq![root],
            r.found() == Seq::<P>::empty(),
    {
        let mut to_check = Vec::new();
        to_check.push(root);
        AudioScan { to_check, paths: Vec::new() }
    }

    /// Whether directories remain to be listed.
    pub fn has_pending(&self) -> (r: bool)
        ensures
            r == (self.pending().len() > 0),
    {
        self.to_check.len() > 0
    }

    /// Takes the directory to list next: the one added last.
    pub fn next_dir(&mut self) -> (r: Option<P>)
        ensures
            old(self).pending().len() == 0 ==> r is None && final(self).pending() == old(self).pending(),
            old(self).pending().len() > 0 ==> r == Some(old(self).pending().last())
                && final(self).pending() == old(self).pending().drop_last(),
            final(self).found() == old(self).found(),
    {
        self.to_check.pop()
    }

    /// Records the listing of a directory: its subdirectories are to be
    /// listed in turn, and its audio files are found.
    pub fn visit(&mut self, entries: Vec<Entry<P>>)
        ensures
            final(self).pending() == old(self).pending() + subdirs(entries@),
            final(self).found() == old(self).found() + audio_files(entries@),
    {
        let ghost dirs0 = self.to_check@;
        let ghost files0 = self.paths@;
        let ghost all = entries@;
        for e in it: entries
            invariant
                it.seq() == all,
                self.to_check@ == dirs0 + subdirs(it.seq().take(it.index() as int)),
                self.paths@ == files0 + audio_files(it.seq().take(it.index() as int)),
        {
            let ghost seen = it.seq().take(it.index() as int);
            let ghost next = it.seq().take(it.index() + 1);
            proof {
                assert(next.drop_last() == seen);
                assert(next.last() == e);
                reveal(Seq::filter);
            }
            if e.is_dir {
                self.to_check.push(e.path);
                proof {
                    assert(subdirs(next) == subdirs(seen).push(e.path));
                    assert(audio_files(next) == audio_files(seen));
                }
            } else if is_audio_file(&e) {
                self.paths.push(e.path);
                proof {
                    assert(subdirs(next) == subdirs(seen));
                    assert(audio_files(next) == audio_files(seen).push(e.path));
                }
            } else {
                proof {
                    assert(subdirs(next) == subdirs(seen));
                    assert(audio_files(next) == audio_files(seen));
                }
            }
        }
        assert(all.take(all.len() as int) == all);
    }

    /// The audio files found, in the order found.
    pub fn into_paths(self) -> (r: Vec<P>)
        ensures
            r@ == self.found(),
    {
        self.paths
    }
}

} // verus!
