//! Properties of the library that span its operations.
use vstd::prelude::*;
use vstd::multiset::Multiset;
use crate::control::{
    audio_step_result, polled, selected_shortcut, AudioStep, Keys, PlaybackState, PositionUpdate,
    Shortcut,
};
use crate::playlist::{
    first_with_path, genre_set, genres_allowed, has_id, index_after_removal, merged_tracks,
    next_index, prev_index, shares_genre, toggled,
};
use crate::state::{
    earlier_path, is_new, last_with_id, lemma_is_new_prefix, planned_inserts, lemma_new_count_step, new_count, planned_id, restored_order,
    scope_name, scope_named, stored,
    view_ids,
};
use crate::genres::is_tally;
use crate::text::{lowercase_of, occurs_in, text_before, lemma_before_irreflexive, lemma_before_transitive};
use crate::track::{passes_filter, shown_name, FilterScope, Track, TrackView};

verus! {

broadcast use vstd::seq_lib::group_to_multiset_ensures;

/// Removing a track other than the current one leaves the same track
/// current; removing the current track leaves none current.
pub proof fn law_removal_keeps_current(tracks: Seq<Track>, cur: usize, index: usize)
    requires
        cur < tracks.len(),
        index < tracks.len(),
    ensures
        cur == index ==> index_after_removal(Some(cur), index) is None,
        cur != index ==> (index_after_removal(Some(cur), index) matches Some(c) && c
            < tracks.len() - 1 && tracks.remove(index as int)[c as int] == tracks[cur as int]),
{
}

/// Shuffling keeps the current track current: in any permutation of the
/// tracks, the first index with the current track's path exists and holds a
/// track with that path.
pub proof fn law_shuffle_keeps_current(
    before: Seq<Track>,
    after: Seq<Track>,
    cur: usize,
    found: Option<usize>,
)
    requires
        after.to_multiset() == before.to_multiset(),
        cur < before.len(),
        first_with_path(after, before[cur as int].path@, found),
    ensures
        found matches Some(j) && j < after.len() && after[j as int].path@ == before[
            cur as int].path@,
{
    let t = before[cur as int];
    assert(before.to_multiset().count(t) > 0);
    assert(after.contains(t));
    let k = choose|k: int| 0 <= k < after.len() && after[k] == t;
    if found is None {
        assert(after[k].path@ != t.path@);
    }
}

/// The genre lists stay mutually exclusive: toggling a genre in either list
/// keeps them disjoint.
pub proof fn law_toggle_keeps_lists_apart(
    first: Set<Seq<char>>,
    other: Set<Seq<char>>,
    g: Seq<char>,
)
    requires
        first.disjoint(other),
    ensures
        toggled(first, other, g).0.disjoint(toggled(first, other, g).1),
{
}

/// Toggling a genre flips whether it is in the toggled list.
pub proof fn law_toggle_flips(first: Set<Seq<char>>, other: Set<Seq<char>>, g: Seq<char>)
    ensures
        toggled(first, other, g).0.contains(g) == !first.contains(g),
{
}

/// Toggling a genre that is in neither list twice leaves both lists as they
/// were.
pub proof fn law_toggle_twice(first: Set<Seq<char>>, other: Set<Seq<char>>, g: Seq<char>)
    requires
        !first.contains(g),
        !other.contains(g),
    ensures
        toggled(toggled(first, other, g).0, toggled(first, other, g).1, g) == (first, other),
{
    assert(first.insert(g).remove(g) =~= first);
    assert(other.remove(g) =~= other);
}

/// The blacklist wins over the whitelist: a track with a blacklisted genre is
/// hidden whatever the whitelist holds.
pub proof fn law_blacklist_wins(genres: Seq<String>, white: Seq<String>, black: Seq<String>)
    requires
        shares_genre(genres, black),
    ensures
        !genres_allowed(genres, white, black),
{
}

/// With both genre lists empty every track is shown.
pub proof fn law_no_genre_filters_show_all(genres: Seq<String>, white: Seq<String>, black: Seq<
    String,
>)
    requires
        white.len() == 0,
        black.len() == 0,
    ensures
        genres_allowed(genres, white, black),
{
    assert(genre_set(white) =~= Set::<Seq<char>>::empty());
}

/// The empty query passes every track, in every scope.
pub proof fn law_empty_filter_passes_all(t: TrackView, scope: FilterScope)
    ensures
        passes_filter(t, Seq::<char>::empty(), scope),
{
}

/// A non-empty query that occurs, lowercased, in the lowercased shown name
/// passes the track-name filter.
pub proof fn law_filter_is_substring_match(t: TrackView, q: Seq<char>)
    requires
        q.len() > 0,
    ensures
        passes_filter(t, q, FilterScope::TrackName) == occurs_in(
            crate::text::lowercase_of(q),
            crate::text::lowercase_of(crate::track::shown_name(t)),
        ),
{
}

/// Moving forward then back returns to the same track, and back then
/// forward too.
pub proof fn law_next_then_prev(len: usize, i: usize)
    ensures
        i + 1 < len ==> (next_index(len as nat, Some(i)) matches Some(n) && prev_index(Some(n)) == Some(
            i,
        )),
        0 < i < len ==> (prev_index(Some(i)) matches Some(p) && next_index(len as nat, Some(p)) == Some(
            i,
        )),
{
}

/// A saved filter scope comes back as itself.
pub proof fn law_scope_name_round_trip(s: FilterScope)
    ensures
        scope_named(scope_name(s)) == s,
{
    reveal_strlit("name");
    reveal_strlit("artist");
    reveal_strlit("filename");
    assert("name"@.len() == 4 && "artist"@.len() == 6 && "filename"@.len() == 8);
}

proof fn lemma_last_with_id_distinct(ts: Seq<TrackView>, k: int)
    requires
        0 <= k < ts.len(),
        forall|a: int, b: int| 0 <= a < b < ts.len() ==> ts[a].id != ts[b].id,
    ensures
        last_with_id(ts, ts[k].id) == Some(ts[k]),
    decreases ts.len(),
{
    if k < ts.len() - 1 {
        assert(ts.last().id != ts[k].id);
        let t = ts.drop_last();
        assert(t[k] == ts[k]);
        lemma_last_with_id_distinct(t, k);
    }
}

proof fn lemma_restore_prefix(ts: Seq<TrackView>, k: int)
    requires
        0 <= k <= ts.len(),
        forall|a: int, b: int| 0 <= a < b < ts.len() ==> ts[a].id != ts[b].id,
    ensures
        restored_order(view_ids(ts).take(k), ts) == ts.take(k),
    decreases k,
{
    let ids = view_ids(ts);
    if k == 0 {
        assert(ids.take(0) =~= Seq::<u64>::empty());
        assert(restored_order(ids.take(0), ts) =~= ts.take(0));
    } else {
        lemma_restore_prefix(ts, k - 1);
        let pre = ids.take(k);
        assert(pre.drop_last() =~= ids.take(k - 1));
        assert(pre.last() == ts[k - 1].id);
        assert(!ids.take(k - 1).contains(ts[k - 1].id)) by {
            if ids.take(k - 1).contains(ts[k - 1].id) {
                let a = choose|a: int| 0 <= a < k - 1 && #[trigger] ids.take(k - 1)[a] == ts[k - 1].id;
                assert(ts[a].id == ts[k - 1].id);
            }
        }
        lemma_last_with_id_distinct(ts, k - 1);
        assert(ts.take(k) =~= ts.take(k - 1).push(ts[k - 1]));
    }
}

/// Saving the playlist order and restoring it from the same tracks' records
/// gives back the same tracks in the same order, when the tracks' library ids
/// are distinct.
pub proof fn law_saved_order_restores(ts: Seq<TrackView>)
    requires
        forall|a: int, b: int| 0 <= a < b < ts.len() ==> ts[a].id != ts[b].id,
    ensures
        restored_order(view_ids(ts), ts) == ts,
{
    lemma_restore_prefix(ts, ts.len() as int);
    assert(view_ids(ts).take(ts.len() as int) =~= view_ids(ts));
    assert(ts.take(ts.len() as int) =~= ts);
}

proof fn lemma_new_count_strict(
    existing: Seq<(u64, String)>,
    rv: Seq<TrackView>,
    i: int,
    k: int,
)
    requires
        0 <= i < k <= rv.len(),
        is_new(existing, rv, i),
    ensures
        new_count(existing, rv.take(i)) < new_count(existing, rv.take(k)),
    decreases k - i,
{
    if i + 1 == k {
        lemma_new_count_step(existing, rv, i);
    } else {
        lemma_new_count_strict(existing, rv, i, k - 1);
        lemma_new_count_step(existing, rv, k - 1);
    }
}

/// A batch insert gives different new records different ids, increasing in
/// record order, each below the next free id after the batch.
pub proof fn law_new_ids_distinct(
    existing: Seq<(u64, String)>,
    rv: Seq<TrackView>,
    next_id: u64,
    i: int,
    k: int,
)
    requires
        0 <= i < k < rv.len(),
        is_new(existing, rv, i),
        is_new(existing, rv, k),
        next_id + new_count(existing, rv) <= u64::MAX,
    ensures
        planned_id(existing, rv, next_id, i) matches Some(a) && planned_id(
            existing,
            rv,
            next_id,
            k,
        ) matches Some(b) && a < b && b < next_id + new_count(existing, rv),
{
    lemma_new_count_strict(existing, rv, i, k);
    lemma_new_count_strict(existing, rv, k, rv.len() as int);
    assert(rv.take(rv.len() as int) =~= rv);
}

/// A path that already exists, in the library or earlier in the batch, is
/// not stored again: its record gets no id.
pub proof fn law_known_path_not_stored_again(
    existing: Seq<(u64, String)>,
    rv: Seq<TrackView>,
    next_id: u64,
    k: int,
)
    requires
        0 <= k < rv.len(),
        stored(existing, rv[k].path) || earlier_path(rv, k),
    ensures
        planned_id(existing, rv, next_id, k) is None,
{
}

/// The records a batch stores have paths that are not in the library and
/// differ from each other.
pub proof fn law_new_paths_distinct(existing: Seq<(u64, String)>, rv: Seq<TrackView>, i: int, k: int)
    requires
        0 <= i < k < rv.len(),
        is_new(existing, rv, i),
        is_new(existing, rv, k),
    ensures
        rv[i].path != rv[k].path,
        !stored(existing, rv[k].path),
{
}

/// The paths held by the library's entries.
pub open spec fn library_paths(existing: Seq<(u64, String)>) -> Seq<Seq<char>> {
    existing.map_values(|e: (u64, String)| e.1@)
}

/// The paths of the records a batch stores.
pub open spec fn inserted_paths(inserts: Seq<TrackView>) -> Seq<Seq<char>> {
    inserts.map_values(|t: TrackView| t.path)
}

proof fn lemma_planned_paths(existing: Seq<(u64, String)>, rv: Seq<TrackView>, next_id: u64)
    ensures
        forall|m: int|
            0 <= m < planned_inserts(existing, rv, next_id).len() ==> exists|k: int|
                0 <= k < rv.len() && #[trigger] planned_inserts(existing, rv, next_id)[m].path
                    == rv[k].path,
        forall|m: int|
            0 <= m < planned_inserts(existing, rv, next_id).len() ==> !stored(
                existing,
                #[trigger] planned_inserts(existing, rv, next_id)[m].path,
            ),
        forall|m: int, l: int|
            0 <= m < l < planned_inserts(existing, rv, next_id).len() ==> #[trigger] planned_inserts(
                existing,
                rv,
                next_id,
            )[m].path != #[trigger] planned_inserts(existing, rv, next_id)[l].path,
    decreases rv.len(),
{
    if rv.len() > 0 {
        let n = rv.len() - 1;
        let d = rv.drop_last();
        lemma_planned_paths(existing, d, next_id);
        let prev = planned_inserts(existing, d, next_id);
        let ins = planned_inserts(existing, rv, next_id);
        assert forall|m: int| 0 <= m < prev.len() implies exists|k: int|
            0 <= k < n && #[trigger] prev[m].path == rv[k].path by {
            let k = choose|k: int| 0 <= k < d.len() && #[trigger] prev[m].path == d[k].path;
            assert(d[k] == rv[k]);
        }
        if is_new(existing, rv, n) {
            assert(ins == prev.push(TrackView { id: (next_id + new_count(existing, d)) as u64, ..rv.last() }));
            assert(ins[prev.len() as int].path == rv[n].path);
            assert forall|m: int| 0 <= m < prev.len() implies #[trigger] prev[m].path != rv[n].path by {
                let k = choose|k: int| 0 <= k < n && #[trigger] prev[m].path == rv[k].path;
                if prev[m].path == rv[n].path {
                    assert(earlier_path(rv, n));
                }
            }
            assert forall|m: int| 0 <= m < ins.len() implies exists|k: int|
                0 <= k < rv.len() && #[trigger] ins[m].path == rv[k].path by {
                if m < prev.len() {
                    assert(ins[m] == prev[m]);
                    let k = choose|k: int| 0 <= k < n && #[trigger] prev[m].path == rv[k].path;
                    assert(ins[m].path == rv[k].path);
                } else {
                    assert(ins[m].path == rv[n].path);
                }
            }
            assert forall|m: int| 0 <= m < ins.len() implies !stored(existing, #[trigger] ins[m].path) by {
                if m < prev.len() {
                    assert(ins[m] == prev[m]);
                }
            }
            assert forall|m: int, l: int| 0 <= m < l < ins.len() implies #[trigger] ins[m].path
                != #[trigger] ins[l].path by {
                assert(ins[m] == prev[m]);
                if l < prev.len() {
                    assert(ins[l] == prev[l]);
                } else {
                    assert(ins[l].path == rv[n].path);
                }
            }
        } else {
            assert(ins == prev);
            assert forall|m: int| 0 <= m < ins.len() implies exists|k: int|
                0 <= k < rv.len() && #[trigger] ins[m].path == rv[k].path by {
                let k = choose|k: int| 0 <= k < n && #[trigger] prev[m].path == rv[k].path;
            }
        }
    }
}

/// A batch insert keeps the library's paths distinct: when no two entries
/// of the library share a path, no two share one after the batch's new
/// records are stored, whatever the batch holds.
pub proof fn law_batch_keeps_paths_distinct(
    existing: Seq<(u64, String)>,
    rv: Seq<TrackView>,
    next_id: u64,
)
    requires
        library_paths(existing).no_duplicates(),
    ensures
        (library_paths(existing) + inserted_paths(planned_inserts(existing, rv, next_id))).no_duplicates(),
{
    let ins = planned_inserts(existing, rv, next_id);
    let a = library_paths(existing);
    let b = inserted_paths(ins);
    let all = a + b;
    lemma_planned_paths(existing, rv, next_id);
    assert forall|i: int, j: int| 0 <= i < all.len() && 0 <= j < all.len() && i != j implies all[i]
        != all[j] by {
        if i < a.len() && j < a.len() {
            assert(all[i] == a[i] && all[j] == a[j]);
        } else if i >= a.len() && j >= a.len() {
            assert(all[i] == ins[i - a.len()].path && all[j] == ins[j - a.len()].path);
            if i < j {
                assert(ins[i - a.len()].path != ins[j - a.len()].path);
            } else {
                assert(ins[j - a.len()].path != ins[i - a.len()].path);
            }
        } else if i < a.len() {
            assert(all[i] == existing[i].1@);
            assert(all[j] == ins[j - a.len()].path);
            assert(!stored(existing, ins[j - a.len()].path));
        } else {
            assert(all[j] == existing[j].1@);
            assert(all[i] == ins[i - a.len()].path);
            assert(!stored(existing, ins[i - a.len()].path));
        }
    }
}

/// Merging loaded records never gives two tracks the same library id, when
/// the playlist's ids were distinct.
pub proof fn law_merge_keeps_ids_distinct(
    tracks: Seq<TrackView>,
    records: Seq<TrackView>,
    ids: Seq<Option<u64>>,
    n: nat,
)
    requires
        n <= records.len(),
        n <= ids.len(),
        forall|a: int, b: int| 0 <= a < b < tracks.len() ==> tracks[a].id != tracks[b].id,
    ensures
        forall|a: int, b: int|
            0 <= a < b < merged_tracks(tracks, records, ids, n).len() ==> merged_tracks(
                tracks,
                records,
                ids,
                n,
            )[a].id != merged_tracks(tracks, records, ids, n)[b].id,
    decreases n,
{
    if n > 0 {
        law_merge_keeps_ids_distinct(tracks, records, ids, (n - 1) as nat);
        let prev = merged_tracks(tracks, records, ids, (n - 1) as nat);
        match ids[n - 1] {
            Some(id) => {
                if !has_id(prev, id) {
                    let m = merged_tracks(tracks, records, ids, n);
                    assert forall|a: int, b: int| 0 <= a < b < m.len() implies m[a].id
                        != m[b].id by {
                        if b == prev.len() {
                            assert(m[a] == prev[a]);
                            assert(m[b].id == id);
                        } else {
                            assert(m[a] == prev[a] && m[b] == prev[b]);
                        }
                    }
                }
            },
            None => {},
        }
    }
}

/// A poll reports a finished track only while playing, and then stops.
pub proof fn law_poll_finishes_only_playing(s: PlaybackState, queue_empty: bool)
    ensures
        polled(s, queue_empty).1 ==> s == PlaybackState::Playing && polled(s, queue_empty).0
            == PlaybackState::Stopped,
        !polled(s, queue_empty).1 ==> polled(s, queue_empty).0 == s,
{
}

/// While a text field has the keyboard, no shortcut fires.
pub proof fn law_typing_blocks_shortcuts(k: Keys)
    requires
        k.typing,
    ensures
        selected_shortcut(k) is None,
{
}


/// The keys of a tally.
pub open spec fn tally_keys(c: Seq<(String, usize)>) -> Seq<Seq<char>> {
    c.map_values(|e: (String, usize)| e.0@)
}

proof fn lemma_sorted_same_members(a: Seq<Seq<char>>, b: Seq<Seq<char>>)
    requires
        forall|i: int, j: int| 0 <= i < j < a.len() ==> text_before(a[i], a[j]),
        forall|i: int, j: int| 0 <= i < j < b.len() ==> text_before(b[i], b[j]),
        forall|x: Seq<char>| a.contains(x) <==> b.contains(x),
    ensures
        a == b,
    decreases a.len(),
{
    if a.len() == 0 {
        if b.len() > 0 {
            assert(b.contains(b[0]));
        }
        assert(a =~= b);
    } else {
        assert(a.contains(a[0]));
        assert(b.len() > 0);
        assert(b.contains(b[0]));
        if a[0] != b[0] {
            let k = choose|k: int| 0 <= k < a.len() && a[k] == b[0];
            let j = choose|j: int| 0 <= j < b.len() && b[j] == a[0];
            assert(k > 0);
            assert(j > 0);
            assert(text_before(a[0], a[k]));
            assert(text_before(b[0], b[j]));
            lemma_before_transitive(a[0], b[0], a[0]);
            lemma_before_irreflexive(a[0]);
        }
        let ta = a.drop_first();
        let tb = b.drop_first();
        assert forall|x: Seq<char>| ta.contains(x) <==> tb.contains(x) by {
            if ta.contains(x) {
                let k = choose|k: int| 0 <= k < ta.len() && ta[k] == x;
                assert(a[k + 1] == x);
                assert(text_before(a[0], a[k + 1]));
                lemma_before_irreflexive(x);
                assert(b.contains(x));
                let j = choose|j: int| 0 <= j < b.len() && b[j] == x;
                assert(j != 0);
                assert(tb[j - 1] == x);
            }
            if tb.contains(x) {
                let k = choose|k: int| 0 <= k < tb.len() && tb[k] == x;
                assert(b[k + 1] == x);
                assert(text_before(b[0], b[k + 1]));
                lemma_before_irreflexive(x);
                assert(a.contains(x));
                let j = choose|j: int| 0 <= j < a.len() && a[j] == x;
                assert(j != 0);
                assert(ta[j - 1] == x);
            }
        }
        assert forall|i: int, j: int| 0 <= i < j < ta.len() implies text_before(ta[i], ta[j]) by {
            assert(ta[i] == a[i + 1] && ta[j] == a[j + 1]);
        }
        assert forall|i: int, j: int| 0 <= i < j < tb.len() implies text_before(tb[i], tb[j]) by {
            assert(tb[i] == b[i + 1] && tb[j] == b[j + 1]);
        }
        lemma_sorted_same_members(ta, tb);
        assert(a =~= seq![a[0]] + ta);
        assert(b =~= seq![b[0]] + tb);
    }
}

/// The genre statistics are determined by the genres alone: two tallies of
/// the same multiset have the same genres in the same order with the same
/// counts (so the filters, which the tally does not see, cannot change it).
pub proof fn law_tally_is_unique(c1: Seq<(String, usize)>, c2: Seq<(String, usize)>, m: Multiset<
    Seq<char>,
>)
    requires
        is_tally(c1, m),
        is_tally(c2, m),
    ensures
        tally_keys(c1) == tally_keys(c2),
        forall|i: int| 0 <= i < c1.len() ==> c1[i].1 == c2[i].1,
{
    let a = tally_keys(c1);
    let b = tally_keys(c2);
    assert forall|i: int, j: int| 0 <= i < j < a.len() implies text_before(a[i], a[j]) by {
        assert(a[i] == c1[i].0@ && a[j] == c1[j].0@);
        assert(text_before(c1[i].0@, c1[j].0@));
    }
    assert forall|i: int, j: int| 0 <= i < j < b.len() implies text_before(b[i], b[j]) by {
        assert(b[i] == c2[i].0@ && b[j] == c2[j].0@);
        assert(text_before(c2[i].0@, c2[j].0@));
    }
    assert forall|x: Seq<char>| a.contains(x) <==> b.contains(x) by {
        if a.contains(x) {
            let k = choose|k: int| 0 <= k < a.len() && a[k] == x;
            assert(c1[k].0@ == x);
            assert(m.count(c1[k].0@) > 0);
            let j = choose|j: int| 0 <= j < c2.len() && #[trigger] c2[j].0@ == x;
            assert(b[j] == x);
        }
        if b.contains(x) {
            let k = choose|k: int| 0 <= k < b.len() && b[k] == x;
            assert(c2[k].0@ == x);
            assert(m.count(c2[k].0@) > 0);
            let j = choose|j: int| 0 <= j < c1.len() && #[trigger] c1[j].0@ == x;
            assert(a[j] == x);
        }
    }
    lemma_sorted_same_members(a, b);
    assert forall|i: int| 0 <= i < c1.len() implies c1[i].1 == c2[i].1 by {
        assert(a[i] == b[i]);
        assert(c1[i].1 == m.count(c1[i].0@));
        assert(c2[i].1 == m.count(c2[i].0@));
    }
}

// ---------------------------------------------------------------------------
// What each stored record of a batch holds

proof fn lemma_planned_inserts_at(existing: Seq<(u64, String)>, rv: Seq<TrackView>, next_id: u64)
    ensures
        planned_inserts(existing, rv, next_id).len() == new_count(existing, rv),
        forall|k: int|
            0 <= k < rv.len() && is_new(existing, rv, k) ==> #[trigger] planned_inserts(
                existing,
                rv,
                next_id,
            )[new_count(existing, rv.take(k)) as int] == (TrackView {
                id: (next_id + new_count(existing, rv.take(k))) as u64,
                ..rv[k]
            }),
    decreases rv.len(),
{
    if rv.len() > 0 {
        let n = rv.len() - 1;
        let d = rv.drop_last();
        lemma_planned_inserts_at(existing, d, next_id);
        assert(d == rv.take(n));
        assert forall|k: int|
            0 <= k < rv.len() && is_new(existing, rv, k) implies #[trigger] planned_inserts(
            existing,
            rv,
            next_id,
        )[new_count(existing, rv.take(k)) as int] == (TrackView {
            id: (next_id + new_count(existing, rv.take(k))) as u64,
            ..rv[k]
        }) by {
            if k < n {
                lemma_is_new_prefix(existing, rv, n, k);
                assert(d.take(k) == rv.take(k));
                assert(d[k] == rv[k]);
                let prev = planned_inserts(existing, d, next_id);
                assert(planned_inserts(existing, d, next_id)[new_count(existing, d.take(k)) as int]
                    == (TrackView { id: (next_id + new_count(existing, d.take(k))) as u64, ..d[k] }));
                lemma_new_count_mono(existing, d, k + 1, n);
                lemma_new_count_step(existing, d, k);
                assert(rv.take(n) == d);
                assert(new_count(existing, d.take(n)) == new_count(existing, d)) by {
                    assert(d.take(n) == d);
                }
            } else {
                assert(rv.take(k) == d);
            }
        }
    }
}

proof fn lemma_new_count_mono(existing: Seq<(u64, String)>, rv: Seq<TrackView>, i: int, k: int)
    requires
        0 <= i <= k <= rv.len(),
    ensures
        new_count(existing, rv.take(i)) <= new_count(existing, rv.take(k)),
    decreases k - i,
{
    if i < k {
        lemma_new_count_mono(existing, rv, i, k - 1);
        lemma_new_count_step(existing, rv, k - 1);
    }
}

/// A batch stores each new record unchanged but for its id: the insert made
/// for the new record at `k` has that record's path, name, tags, genres and
/// duration, and the id planned for it; the inserts come in record order, one
/// per new record.
pub proof fn law_batch_stores_records_unchanged(
    existing: Seq<(u64, String)>,
    rv: Seq<TrackView>,
    next_id: u64,
    k: int,
)
    requires
        0 <= k < rv.len(),
        is_new(existing, rv, k),
    ensures
        planned_id(existing, rv, next_id, k) matches Some(id) && {
            let ins = planned_inserts(existing, rv, next_id);
            let m = new_count(existing, rv.take(k)) as int;
            &&& 0 <= m < ins.len()
            &&& ins[m] == TrackView { id: id, ..rv[k] }
        },
        planned_inserts(existing, rv, next_id).len() == new_count(existing, rv),
{
    lemma_planned_inserts_at(existing, rv, next_id);
    lemma_new_count_step(existing, rv, k);
    lemma_new_count_mono(existing, rv, k + 1, rv.len() as int);
    assert(rv.take(rv.len() as int) == rv);
}

// ---------------------------------------------------------------------------
// What merging appends

/// Merging keeps the playlist's tracks in front, appends only records that
/// came with an id, each one unchanged but for that id, and leaves every id
/// it was given present in the playlist.
pub proof fn law_merge_appends_records(
    tracks: Seq<TrackView>,
    records: Seq<TrackView>,
    ids: Seq<Option<u64>>,
    n: nat,
)
    requires
        n <= records.len(),
        n <= ids.len(),
    ensures
        merged_tracks(tracks, records, ids, n).len() >= tracks.len(),
        forall|i: int|
            0 <= i < tracks.len() ==> #[trigger] merged_tracks(tracks, records, ids, n)[i]
                == tracks[i],
        forall|p: int|
            tracks.len() <= p < merged_tracks(tracks, records, ids, n).len() ==> exists|k: int|
                0 <= k < n && ids[k] == Some(#[trigger] merged_tracks(tracks, records, ids, n)[p].id)
                    && merged_tracks(tracks, records, ids, n)[p] == (TrackView {
                    id: merged_tracks(tracks, records, ids, n)[p].id,
                    ..records[k]
                }),
        forall|k: int|
            0 <= k < n && #[trigger] ids[k] is Some ==> has_id(
                merged_tracks(tracks, records, ids, n),
                ids[k]->0,
            ),
    decreases n,
{
    if n > 0 {
        law_merge_appends_records(tracks, records, ids, (n - 1) as nat);
        let prev = merged_tracks(tracks, records, ids, (n - 1) as nat);
        let m = merged_tracks(tracks, records, ids, n);
        assert(forall|i: int| 0 <= i < prev.len() ==> #[trigger] m[i] == prev[i]);
        assert forall|p: int| tracks.len() <= p < m.len() implies exists|k: int|
            0 <= k < n && ids[k] == Some(#[trigger] m[p].id) && m[p] == (TrackView {
                id: m[p].id,
                ..records[k]
            }) by {
            if p < prev.len() {
                assert(m[p] == prev[p]);
                let k = choose|k: int|
                    0 <= k < n - 1 && ids[k] == Some(#[trigger] prev[p].id) && prev[p] == (
                    TrackView { id: prev[p].id, ..records[k] });
            } else {
                assert(ids[n - 1] == Some(m[p].id));
            }
        }
        assert forall|k: int| 0 <= k < n && #[trigger] ids[k] is Some implies has_id(m, ids[k]->0) by {
            if k < n - 1 {
                assert(has_id(prev, ids[k]->0));
                let i = choose|i: int| 0 <= i < prev.len() && (#[trigger] prev[i]).id == ids[k]->0;
                assert(m[i] == prev[i]);
            } else if !has_id(prev, ids[k]->0) {
                assert(m[prev.len() as int].id == ids[k]->0);
            } else {
                let i = choose|i: int| 0 <= i < prev.len() && (#[trigger] prev[i]).id == ids[k]->0;
                assert(m[i] == prev[i]);
            }
        }
    }
}

// ---------------------------------------------------------------------------
// The text filter

/// The text filter, for a non-empty query: in the artist scope a track
/// passes exactly when it has an artist tag whose lowercase form holds the
/// lowercase query (a track without artist never passes); in the file-name
/// scope when its lowercase file name holds it; in the track-name scope when
/// its lowercase shown name holds it.
pub proof fn law_filter_scopes(t: TrackView, query: Seq<char>)
    requires
        query.len() > 0,
    ensures
        t.artist is None ==> !passes_filter(t, query, FilterScope::Artist),
        passes_filter(t, query, FilterScope::Artist) <==> (t.artist matches Some(a) && occurs_in(
            lowercase_of(query),
            lowercase_of(a),
        )),
        passes_filter(t, query, FilterScope::FileName) <==> occurs_in(
            lowercase_of(query),
            lowercase_of(t.name),
        ),
        passes_filter(t, query, FilterScope::TrackName) <==> occurs_in(
            lowercase_of(query),
            lowercase_of(shown_name(t)),
        ),
{
}

// ---------------------------------------------------------------------------
// One frame of audio

/// One audio frame, case by case. A stop wins: the output is stopped, no
/// track finished, the position goes back to the start. Otherwise a toggle
/// follows the output's report: reported paused gives `Paused` (position kept,
/// or back to the start when a track was also started); reported playing
/// behaves as playing does. A start without a toggle plays. While playing,
/// an empty queue means the track finished (`Stopped`, position to the
/// start); a non-empty one keeps playing with the output's position. A paused
/// or stopped output with nothing asked of it stays as it is.
pub proof fn law_audio_frame(
    state: PlaybackState,
    play: bool,
    paused_after_toggle: Option<bool>,
    stop: bool,
    queue_empty: bool,
)
    ensures
        ({
            let r = audio_step_result(state, play, paused_after_toggle, stop, queue_empty);
            let playing = match paused_after_toggle {
                Some(p) => !p,
                None => play || state == PlaybackState::Playing,
            };
            &&& stop ==> r == AudioStep {
                state: PlaybackState::Stopped,
                finished: false,
                position: PositionUpdate::Zero,
            }
            &&& !stop && paused_after_toggle == Some(true) ==> r == AudioStep {
                state: PlaybackState::Paused,
                finished: false,
                position: if play {
                    PositionUpdate::Zero
                } else {
                    PositionUpdate::Keep
                },
            }
            &&& !stop && playing && queue_empty ==> r == AudioStep {
                state: PlaybackState::Stopped,
                finished: true,
                position: PositionUpdate::Zero,
            }
            &&& !stop && playing && !queue_empty ==> r == AudioStep {
                state: PlaybackState::Playing,
                finished: false,
                position: PositionUpdate::FromOutput,
            }
            &&& !stop && paused_after_toggle is None && !play && state != PlaybackState::Playing
                ==> r == AudioStep { state: state, finished: false, position: PositionUpdate::Keep }
        }),
{
}

// ---------------------------------------------------------------------------
// Keyboard shortcuts

/// The keys select shortcuts as their names say. Outside text entry: the
/// play/pause key plays or pauses; otherwise the right arrow seeks forward
/// half a second, and the left arrow, without the right one, back half a
/// second. A seek forward comes only from the right arrow (half a second) or
/// `J` (ten seconds), a seek back only from the left arrow (half a second) or
/// `L` (ten seconds); next and previous only from their media keys; adding
/// a directory only from Ctrl+Shift+O, adding files only from Ctrl+O without
/// shift, shuffling only from Ctrl+S.
pub proof fn law_shortcut_keys(k: Keys)
    ensures
        !k.typing && k.play_pause ==> selected_shortcut(k) == Some(Shortcut::PlayPause),
        !k.typing && !k.play_pause && k.arrow_right ==> selected_shortcut(k) == Some(
            Shortcut::SeekForward(500),
        ),
        !k.typing && !k.play_pause && !k.arrow_right && k.arrow_left ==> selected_shortcut(k)
            == Some(Shortcut::SeekBackward(500)),
        selected_shortcut(k) matches Some(Shortcut::SeekForward(ms)) ==> (k.arrow_right && ms
            == 500) || (k.key_j && ms == 10_000),
        selected_shortcut(k) matches Some(Shortcut::SeekBackward(ms)) ==> (k.arrow_left && ms
            == 500) || (k.key_l && ms == 10_000),
        selected_shortcut(k) == Some(Shortcut::PlayPause) ==> k.play_pause,
        selected_shortcut(k) == Some(Shortcut::Next) ==> k.media_next,
        selected_shortcut(k) == Some(Shortcut::Previous) ==> k.media_previous,
        selected_shortcut(k) == Some(Shortcut::AddDirectory) ==> k.ctrl && k.shift && k.key_o,
        selected_shortcut(k) == Some(Shortcut::AddFiles) ==> k.ctrl && !k.shift && k.key_o,
        selected_shortcut(k) == Some(Shortcut::Shuffle) ==> k.ctrl && k.key_s,
        selected_shortcut(k) is Some ==> !k.typing,
{
}

} // verus!
