//! What the player saves between runs and how it comes back: the saved
//! application state, restoring the playlist from it, and how the track
//! library hands out ids.
use vstd::prelude::*;
use crate::playlist::{distinct_copy, genre_set, Playlist};
use crate::text::{copy_text, same_text};
use crate::track::{copy_texts, record_views, track_views, FilterScope, Track, TrackRecord};
use crate::track::TrackView;

verus! {

/// The id the library gives its first track, and again after it is cleared.
pub const FIRST_TRACK_ID: u64 = 1;

// ---------------------------------------------------------------------------
// Filter scope names

/// The name under which a filter scope is saved.
pub open spec fn scope_name(s: FilterScope) -> Seq<char> {
    match s {
        FilterScope::TrackName => "name"@,
        FilterScope::Artist => "artist"@,
        FilterScope::FileName => "filename"@,
    }
}

/// The filter scope a saved name stands for; an unknown name means the track
/// name.
pub open spec fn scope_named(name: Seq<char>) -> FilterScope {
    if name == "artist"@ {
        FilterScope::Artist
    } else if name == "filename"@ {
        FilterScope::FileName
    } else {
        FilterScope::TrackName
    }
}

impl FilterScope {
    /// The name under which this scope is saved.
    pub fn name(self) -> (s: String)
        ensures
            s@ == scope_name(self),
    {
        match self {
            FilterScope::TrackName => copy_text("name"),
            FilterScope::Artist => copy_text("artist"),
            FilterScope::FileName => copy_text("filename"),
        }
    }

    /// The scope a saved name stands for (`artist`, `filename`; anything else
    /// is the track name).
    pub fn from_name(name: &str) -> (s: FilterScope)
        ensures
            s == scope_named(name@),
    {
        if same_text(name, "artist") {
            FilterScope::Artist
        } else if same_text(name, "filename") {
            FilterScope::FileName
        } else {
            FilterScope::TrackName
        }
    }
}

// ---------------------------------------------------------------------------
// Saved application state

/// The state saved on exit and after changes: playlist order (after
/// shuffles), current index, text filter and genre filters.
#[derive(Clone, Debug, PartialEq, Eq)]
pub struct AppState {
    /// The library ids of the playlist's tracks, in playlist order.
    pub playlist_order: Vec<u64>,
    pub current_index: Option<usize>,
    pub filter_text: String,
    /// `name`, `artist` or `filename`.
    pub filter_scope: String,
    pub genre_whitelist: Vec<String>,
    pub genre_blacklist: Vec<String>,
}

impl Default for AppState {
    fn default() -> (s: Self)
        ensures
            s.playlist_order@.len() == 0,
            s.current_index is None,
            s.filter_text@.len() == 0,
            s.filter_scope@.len() == 0,
            s.genre_whitelist@.len() == 0,
            s.genre_blacklist@.len() == 0,
    {
        AppState {
            playlist_order: Vec::new(),
            current_index: None,
            filter_text: String::new(),
            filter_scope: String::new(),
            genre_whitelist: Vec::new(),
            genre_blacklist: Vec::new(),
        }
    }
}

/// The library ids of a sequence of tracks.
pub open spec fn view_ids(s: Seq<TrackView>) -> Seq<u64> {
    s.map_values(|t: TrackView| t.id)
}

/// The state that saves `playlist` with the text filter `filter` in `scope`.
pub fn build_app_state(playlist: &Playlist, filter: &str, scope: FilterScope) -> (s: AppState)
    ensures
        s.playlist_order@ == view_ids(track_views(playlist.tracks@)),
        s.current_index == playlist.current,
        s.filter_text@ == filter@,
        s.filter_scope@ == scope_name(scope),
        s.genre_whitelist@ == playlist.genre_whitelist@,
        s.genre_blacklist@ == playlist.genre_blacklist@,
{
    let mut order: Vec<u64> = Vec::new();
    let mut i: usize = 0;
    while i < playlist.tracks.len()
        invariant
            i <= playlist.tracks.len(),
            order@ == view_ids(track_views(playlist.tracks@)).take(i as int),
        decreases playlist.tracks.len() - i,
    {
        order.push(playlist.tracks[i].id);
        i += 1;
        assert(order@ =~= view_ids(track_views(playlist.tracks@)).take(i as int));
    }
    assert(view_ids(track_views(playlist.tracks@)).take(i as int) =~= view_ids(
        track_views(playlist.tracks@),
    ));
    AppState {
        playlist_order: order,
        current_index: playlist.current,
        filter_text: copy_text(filter),
        filter_scope: scope.name(),
        genre_whitelist: copy_texts(&playlist.genre_whitelist),
        genre_blacklist: copy_texts(&playlist.genre_blacklist),
    }
}

/// The last of `records` with the id `id`, if any (loading the library keys
/// records by id, so a later record with the same id replaces an earlier
/// one).
pub open spec fn last_with_id(records: Seq<TrackView>, id: u64) -> Option<TrackView>
    decreases records.len(),
{
    if records.len() == 0 {
        None
    } else if records.last().id == id {
        Some(records.last())
    } else {
        last_with_id(records.drop_last(), id)
    }
}

/// The tracks restored in the saved `order`: for each id, on its first
/// occurrence, the record with that id (see `last_with_id`); ids without a
/// record and repeated ids are skipped.
pub open spec fn restored_order(order: Seq<u64>, records: Seq<TrackView>) -> Seq<TrackView>
    decreases order.len(),
{
    if order.len() == 0 {
        Seq::<TrackView>::empty()
    } else {
        let prev = restored_order(order.drop_last(), records);
        let id = order.last();
        if order.drop_last().contains(id) {
            prev
        } else {
            match last_with_id(records, id) {
                Some(r) => prev.push(r),
                None => prev,
            }
        }
    }
}

/// The index of the last record with id `id`.
fn find_last_with_id(records: &Vec<TrackRecord>, id: u64) -> (r: Option<usize>)
    ensures
        match r {
            Some(k) => k < records.len() && last_with_id(record_views(records@), id) == Some(
                records@[k as int]@,
            ),
            None => last_with_id(record_views(records@), id) is None,
        },
{
    let ghost all = record_views(records@);
    let mut n: usize = records.len();
    proof {
        assert(all.take(n as int) =~= all);
    }
    while n > 0
        invariant
            n <= records.len(),
            all == record_views(records@),
            last_with_id(all, id) == last_with_id(all.take(n as int), id),
        decreases n,
    {
        proof {
            assert(all.take(n as int).drop_last() =~= all.take(n - 1));
            assert(all.take(n as int).last() == records@[n - 1]@);
        }
        if records[n - 1].id == id {
            return Some(n - 1);
        }
        n -= 1;
    }
    None
}

/// Whether `id` occurs among the first `k` ids of `order`.
fn seen_before(order: &Vec<u64>, k: usize, id: u64) -> (r: bool)
    requires
        k <= order.len(),
    ensures
        r == order@.take(k as int).contains(id),
{
    let mut i: usize = 0;
    while i < k
        invariant
            i <= k <= order.len(),
            forall|j: int| 0 <= j < i ==> order@[j] != id,
        decreases k - i,
    {
        if order[i] == id {
            assert(order@.take(k as int)[i as int] == id);
            return true;
        }
        i += 1;
    }
    false
}

/// The playlist as saved in `state`, given the library records: when the
/// state has a playlist order, `records` are the ones loaded for that order
/// and the tracks come back in it (see `restored_order`); with no saved
/// order every record becomes a track, in the given order. The current index
/// is the saved one if it is that of a restored track, else none; the genre
/// lists name the saved genres, each once.
pub fn restore_playlist(state: &AppState, records: &Vec<TrackRecord>) -> (p: Playlist)
    ensures
        track_views(p.tracks@) == (if state.playlist_order@.len() > 0 {
            restored_order(state.playlist_order@, record_views(records@))
        } else {
            record_views(records@)
        }),
        p.current == (match state.current_index {
            Some(i) => if i < p.tracks@.len() {
                Some(i)
            } else {
                None
            },
            None => None,
        }),
        genre_set(p.genre_whitelist@) == genre_set(state.genre_whitelist@),
        genre_set(p.genre_blacklist@) == genre_set(state.genre_blacklist@),
        p.wf(),
{
    let mut tracks: Vec<Track> = Vec::new();
    let order = &state.playlist_order;
    let ghost rv = record_views(records@);
    if order.len() > 0 {
        let mut k: usize = 0;
        while k < order.len()
            invariant
                k <= order.len(),
                rv == record_views(records@),
                track_views(tracks@) == restored_order(order@.take(k as int), rv),
            decreases order.len() - k,
        {
            let id = order[k];
            proof {
                assert(order@.take(k + 1).drop_last() =~= order@.take(k as int));
                assert(order@.take(k + 1).last() == id);
            }
            if !seen_before(order, k, id) {
                match find_last_with_id(records, id) {
                    Some(j) => {
                        let ghost before = tracks@;
                        tracks.push(Track::from_record(records[j].duplicate()));
                        assert(track_views(tracks@) =~= track_views(before).push(records@[j as int]@));
                    },
                    None => {},
                }
            }
            k += 1;
        }
        assert(order@.take(order.len() as int) =~= order@);
    } else {
        let mut k: usize = 0;
        while k < records.len()
            invariant
                k <= records.len(),
                rv == record_views(records@),
                track_views(tracks@) == rv.take(k as int),
            decreases records.len() - k,
        {
            let ghost before = tracks@;
            tracks.push(Track::from_record(records[k].duplicate()));
            proof {
                assert(rv[k as int] == records@[k as int]@);
                assert(track_views(tracks@) =~= track_views(before).push(rv[k as int]));
                assert(rv.take(k + 1) =~= rv.take(k as int).push(rv[k as int]));
            }
            k += 1;
        }
        assert(rv.take(records.len() as int) =~= rv);
    }
    let current = match state.current_index {
        Some(i) => if i < tracks.len() {
            Some(i)
        } else {
            None
        },
        None => None,
    };
    Playlist {
        tracks,
        current,
        genre_whitelist: distinct_copy(&state.genre_whitelist),
        genre_blacklist: distinct_copy(&state.genre_blacklist),
    }
}

// ---------------------------------------------------------------------------
// Library ids

/// The library already holds an entry with this path.
pub open spec fn stored(existing: Seq<(u64, String)>, path: Seq<char>) -> bool {
    exists|i: int| 0 <= i < existing.len() && #[trigger] existing[i].1@ == path
}

/// The record at `k` has the path of an earlier record of the batch.
pub open spec fn earlier_path(records: Seq<TrackView>, k: int) -> bool {
    exists|j: int| 0 <= j < k && #[trigger] records[j].path == records[k].path
}

/// The record at `k` is new: its path is neither in the library nor on an
/// earlier record of the batch.
pub open spec fn is_new(existing: Seq<(u64, String)>, records: Seq<TrackView>, k: int) -> bool {
    !stored(existing, records[k].path) && !earlier_path(records, k)
}

/// How many of `records` are new (see `is_new`).
pub open spec fn new_count(existing: Seq<(u64, String)>, records: Seq<TrackView>) -> nat
    decreases records.len(),
{
    if records.len() == 0 {
        0
    } else {
        new_count(existing, records.drop_last()) + if is_new(
            existing,
            records,
            records.len() - 1,
        ) {
            1nat
        } else {
            0nat
        }
    }
}

/// The id the record at `k` is inserted under, if it is new: the next free
/// id after the new records before it. A record whose path exists gets none.
pub open spec fn planned_id(
    existing: Seq<(u64, String)>,
    records: Seq<TrackView>,
    next_id: u64,
    k: int,
) -> Option<u64> {
    if is_new(existing, records, k) {
        Some((next_id + new_count(existing, records.take(k))) as u64)
    } else {
        None
    }
}

/// The records to store: the new ones, in order, each with its new id.
pub open spec fn planned_inserts(
    existing: Seq<(u64, String)>,
    records: Seq<TrackView>,
    next_id: u64,
) -> Seq<TrackView>
    decreases records.len(),
{
    if records.len() == 0 {
        Seq::<TrackView>::empty()
    } else {
        let prev = planned_inserts(existing, records.drop_last(), next_id);
        if is_new(existing, records, records.len() - 1) {
            prev.push(
                TrackView {
                    id: (next_id + new_count(existing, records.drop_last())) as u64,
                    ..records.last()
                },
            )
        } else {
            prev
        }
    }
}

/// Whether a record is new depends only on the records before it.
pub proof fn lemma_is_new_prefix(existing: Seq<(u64, String)>, records: Seq<TrackView>, n: int, k: int)
    requires
        0 <= k < n <= records.len(),
    ensures
        is_new(existing, records.take(n), k) == is_new(existing, records, k),
{
    let t = records.take(n);
    assert(t[k] == records[k]);
    if earlier_path(records, k) {
        let j = choose|j: int| 0 <= j < k && #[trigger] records[j].path == records[k].path;
        assert(t[j] == records[j]);
    }
    if earlier_path(t, k) {
        let j = choose|j: int| 0 <= j < k && #[trigger] t[j].path == t[k].path;
        assert(t[j] == records[j]);
    }
}

pub proof fn lemma_new_count_step(existing: Seq<(u64, String)>, rv: Seq<TrackView>, k: int)
    requires
        0 <= k < rv.len(),
    ensures
        new_count(existing, rv.take(k + 1)) == new_count(existing, rv.take(k)) + if is_new(
            existing,
            rv,
            k,
        ) {
            1nat
        } else {
            0nat
        },
{
    assert(rv.take(k + 1).drop_last() =~= rv.take(k));
    lemma_is_new_prefix(existing, rv, k + 1, k);
}

proof fn lemma_new_count_mono(existing: Seq<(u64, String)>, rv: Seq<TrackView>, i: int, k: int)
    requires
        0 <= i <= k <= rv.len(),
    ensures
        new_count(existing, rv.take(i)) <= new_count(existing, rv.take(k)),
    decreases k - i,
{
    if i < k {
        lemma_new_count_mono(existing, rv, i, k - 1);
        lemma_new_count_step(existing, rv, k - 1);
    }
}

/// Whether the library holds an entry with `path`.
fn path_stored(existing: &Vec<(u64, String)>, path: &String) -> (r: bool)
    ensures
        r == stored(existing@, path@),
{
    let mut i: usize = 0;
    while i < existing.len()
        invariant
            i <= existing.len(),
            forall|q: int| 0 <= q < i ==> existing@[q].1@ != path@,
        decreases existing.len() - i,
    {
        if existing[i].1 == *path {
            assert(existing@[i as int].1@ == path@);
            return true;
        }
        i += 1;
    }
    false
}

/// Whether record `k` repeats the path of an earlier record.
fn path_seen(records: &Vec<TrackRecord>, k: usize) -> (r: bool)
    requires
        k < records.len(),
    ensures
        r == earlier_path(record_views(records@), k as int),
{
    let ghost rv = record_views(records@);
    let mut j: usize = 0;
    while j < k
        invariant
            j <= k < records.len(),
            rv == record_views(records@),
            forall|q: int| 0 <= q < j ==> rv[q].path != rv[k as int].path,
        decreases k - j,
    {
        if records[j].path == records[k].path {
            assert(rv[j as int].path == rv[k as int].path);
            return true;
        }
        j += 1;
    }
    false
}

/// Whether record `k` is new (see `is_new`).
fn record_is_new(existing: &Vec<(u64, String)>, records: &Vec<TrackRecord>, k: usize) -> (r: bool)
    requires
        k < records.len(),
    ensures
        r == is_new(existing@, record_views(records@), k as int),
{
    assert(record_views(records@)[k as int].path == records@[k as int].path@);
    !path_stored(existing, &records[k].path) && !path_seen(records, k)
}

/// What one batch insert into the library does.
#[derive(Clone, Debug)]
pub struct BatchPlan {
    /// Per record, in record order: the new id it is stored under, or none if
    /// its path already exists.
    pub ids: Vec<Option<u64>>,
    /// The records to write, with their new ids.
    pub inserts: Vec<TrackRecord>,
    /// The next free id after the batch.
    pub next_id: u64,
}

/// How many of `records` are new (see `is_new`): the number of ids a batch
/// insert hands out.
pub fn new_record_count(existing: &Vec<(u64, String)>, records: &Vec<TrackRecord>) -> (n: usize)
    ensures
        n == new_count(existing@, record_views(records@)),
{
    let ghost rv = record_views(records@);
    let mut n: usize = 0;
    let mut k: usize = 0;
    while k < records.len()
        invariant
            k <= records.len(),
            rv == record_views(records@),
            n == new_count(existing@, rv.take(k as int)),
            n <= k,
        decreases records.len() - k,
    {
        proof {
            lemma_new_count_step(existing@, rv, k as int);
        }
        if record_is_new(existing, records, k) {
            n = n + 1;
        }
        k += 1;
    }
    proof {
        assert(rv.take(records@.len() as int) =~= rv);
    }
    n
}

/// Plans a batch insert of `records` into a library that holds the entries
/// `existing` (id and path) and whose next free id is `next_id`. Each new
/// record (see `is_new`) takes the next free id in turn and is written; a
/// record whose path already exists, in the library or earlier in the batch,
/// gets no id and is not written again.
pub fn plan_batch_insert(
    existing: &Vec<(u64, String)>,
    records: &Vec<TrackRecord>,
    next_id: u64,
) -> (plan: BatchPlan)
    requires
        next_id + new_count(existing@, record_views(records@)) <= u64::MAX,
    ensures
        plan.ids@.len() == records@.len(),
        forall|k: int|
            0 <= k < records@.len() ==> #[trigger] plan.ids@[k] == planned_id(
                existing@,
                record_views(records@),
                next_id,
                k,
            ),
        record_views(plan.inserts@) == planned_inserts(existing@, record_views(records@), next_id),
        plan.next_id == next_id + new_count(existing@, record_views(records@)),
{
    let ghost rv = record_views(records@);
    let mut ids: Vec<Option<u64>> = Vec::new();
    let mut inserts: Vec<TrackRecord> = Vec::new();
    let mut next = next_id;
    let mut k: usize = 0;
    while k < records.len()
        invariant
            k <= records.len(),
            rv == record_views(records@),
            next_id + new_count(existing@, rv) <= u64::MAX,
            next == next_id + new_count(existing@, rv.take(k as int)),
            ids@.len() == k,
            forall|j: int|
                0 <= j < k ==> #[trigger] ids@[j] == planned_id(existing@, rv, next_id, j),
            record_views(inserts@) == planned_inserts(existing@, rv.take(k as int), next_id),
        decreases records.len() - k,
    {
        proof {
            lemma_new_count_step(existing@, rv, k as int);
            lemma_is_new_prefix(existing@, rv, k + 1, k as int);
            assert(rv.take(k + 1).drop_last() =~= rv.take(k as int));
            assert(rv.take(k + 1).last() == rv[k as int]);
            assert(rv[k as int] == records@[k as int]@);
            lemma_new_count_mono(existing@, rv, k + 1, records@.len() as int);
            assert(rv.take(records@.len() as int) =~= rv);
        }
        if record_is_new(existing, records, k) {
            let id = next;
            next = next + 1;
            let mut r = records[k].duplicate();
            r.id = id;
            let ghost before = inserts@;
            inserts.push(r);
            ids.push(Some(id));
            proof {
                assert(record_views(inserts@) =~= record_views(before).push(
                    TrackView { id: id, ..rv[k as int] },
                ));
            }
        } else {
            ids.push(None);
        }
        k += 1;
    }
    proof {
        assert(rv.take(records@.len() as int) =~= rv);
    }
    BatchPlan { ids, inserts, next_id: next }
}

} // verus!
