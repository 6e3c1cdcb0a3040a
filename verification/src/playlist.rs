//! The playlist: its tracks, the current track, navigation, shuffling, genre
//! white- and blacklists, and merging freshly loaded tracks.
use vstd::prelude::*;
use crate::control::{seek_position, clamp_seek, MprisCommand, PlaybackState, Transport};
use crate::text::{copy_text, same_text};
use crate::track::{FilterScope, Track, TrackRecord, TrackView, passes_filter};
use crate::track::{record_views, track_views};
use crate::track::{is_supported_format, is_supported_path};

verus! {

// ---------------------------------------------------------------------------
// Genre lists

/// Some string of `v` has the text `g`.
pub open spec fn listed(v: Seq<String>, g: Seq<char>) -> bool {
    exists|i: int| 0 <= i < v.len() && #[trigger] v[i]@ == g
}

/// The genres a list names, as a set of texts.
pub open spec fn genre_set(v: Seq<String>) -> Set<Seq<char>> {
    Set::new(|g: Seq<char>| listed(v, g))
}

/// Some genre of `genres` is listed in `list`.
pub open spec fn shares_genre(genres: Seq<String>, list: Seq<String>) -> bool {
    exists|i: int| 0 <= i < genres.len() && listed(list, #[trigger] genres[i]@)
}

/// A track with these genres is shown under the given whitelist and
/// blacklist: none of its genres is blacklisted, and the whitelist is empty
/// or holds one of its genres. The blacklist wins over the whitelist.
pub open spec fn genres_allowed(genres: Seq<String>, white: Seq<String>, black: Seq<String>) -> bool {
    &&& !shares_genre(genres, black)
    &&& (genre_set(white).len() == 0 || shares_genre(genres, white))
}

proof fn lemma_listed_push(s: Seq<String>, e: String, x: Seq<char>)
    ensures
        listed(s.push(e), x) <==> (listed(s, x) || e@ == x),
{
    if listed(s, x) {
        let k = choose|k: int| 0 <= k < s.len() && #[trigger] s[k]@ == x;
        assert(s.push(e)[k]@ == x);
    }
    if e@ == x {
        assert(s.push(e)[s.len() as int]@ == x);
    }
    if listed(s.push(e), x) {
        let k = choose|k: int| 0 <= k < s.push(e).len() && #[trigger] s.push(e)[k]@ == x;
        if k < s.len() {
            assert(s[k] == s.push(e)[k]);
        }
    }
}

proof fn lemma_listed_take(s: Seq<String>, i: int, x: Seq<char>)
    requires
        0 <= i < s.len(),
    ensures
        listed(s.take(i + 1), x) <==> (listed(s.take(i), x) || s[i]@ == x),
{
    assert(s.take(i + 1) =~= s.take(i).push(s[i]));
    lemma_listed_push(s.take(i), s[i], x);
}

proof fn lemma_listed_all(s: Seq<String>, x: Seq<char>)
    ensures
        listed(s.take(s.len() as int), x) == listed(s, x),
{
    assert(s.take(s.len() as int) =~= s);
}

/// An empty list names no genre.
proof fn lemma_genre_set_empty(s: Seq<String>)
    ensures
        s.len() == 0 <==> genre_set(s).len() == 0,
{
    if s.len() == 0 {
        assert(genre_set(s) =~= Set::<Seq<char>>::empty());
    } else {
        assert(genre_set(s).contains(s[0]@));
        assert(genre_set(s).finite()) by {
            lemma_genre_set_finite(s);
        }
        vstd::set_lib::lemma_set_empty_equivalency_len(genre_set(s));
    }
}

proof fn lemma_genre_set_finite(s: Seq<String>)
    ensures
        genre_set(s).finite(),
    decreases s.len(),
{
    if s.len() == 0 {
        assert(genre_set(s) =~= Set::<Seq<char>>::empty());
    } else {
        let t = s.drop_last();
        lemma_genre_set_finite(t);
        assert forall|x: Seq<char>| genre_set(s).contains(x) <==> genre_set(t).insert(
            s.last()@,
        ).contains(x) by {
            assert(s =~= t.push(s.last()));
            lemma_listed_push(t, s.last(), x);
        }
        assert(genre_set(s) =~= genre_set(t).insert(s.last()@));
    }
}

/// No two strings of `v` have the same text (a list used as a set).
pub open spec fn distinct_texts(v: Seq<String>) -> bool {
    forall|i: int, j: int| 0 <= i < j < v.len() ==> v[i]@ != v[j]@
}

proof fn lemma_push_distinct(s: Seq<String>, e: String)
    requires
        distinct_texts(s),
        !listed(s, e@),
    ensures
        distinct_texts(s.push(e)),
{
    let t = s.push(e);
    assert forall|i: int, j: int| 0 <= i < j < t.len() implies t[i]@ != t[j]@ by {
        assert(t[i] == s[i]);
        if j == s.len() {
            if t[i]@ == t[j]@ {
                assert(s[i]@ == e@);
            }
        } else {
            assert(t[j] == s[j]);
        }
    }
}

/// Whether some string of `list` has the text `g`.
fn is_listed(list: &Vec<String>, g: &str) -> (r: bool)
    ensures
        r == listed(list@, g@),
{
    let mut i: usize = 0;
    while i < list.len()
        invariant
            i <= list.len(),
            forall|k: int| 0 <= k < i ==> list@[k]@ != g@,
        decreases list.len() - i,
    {
        if same_text(list[i].as_str(), g) {
            assert(list@[i as int]@ == g@);
            return true;
        }
        i += 1;
    }
    false
}

/// Whether some genre of `genres` is listed in `list`.
fn any_listed(genres: &Vec<String>, list: &Vec<String>) -> (r: bool)
    ensures
        r == shares_genre(genres@, list@),
{
    let mut i: usize = 0;
    while i < genres.len()
        invariant
            i <= genres.len(),
            forall|k: int| 0 <= k < i ==> !listed(list@, #[trigger] genres@[k]@),
        decreases genres.len() - i,
    {
        if is_listed(list, genres[i].as_str()) {
            return true;
        }
        i += 1;
    }
    false
}

/// The strings of `list` whose text differs from `g`.
fn without_text(list: &Vec<String>, g: &str) -> (out: Vec<String>)
    ensures
        genre_set(out@) == genre_set(list@).remove(g@),
        distinct_texts(list@) ==> distinct_texts(out@),
{
    let mut out: Vec<String> = Vec::new();
    let mut i: usize = 0;
    while i < list.len()
        invariant
            i <= list.len(),
            forall|x: Seq<char>|
                #![trigger listed(out@, x)]
                listed(out@, x) <==> (listed(list@.take(i as int), x) && x != g@),
            distinct_texts(list@) ==> distinct_texts(out@),
        decreases list.len() - i,
    {
        let ghost prev = out@;
        if !same_text(list[i].as_str(), g) {
            proof {
                if distinct_texts(list@) && listed(prev, list@[i as int]@) {
                    let k = choose|k: int|
                        0 <= k < list@.take(i as int).len() && #[trigger] list@.take(i as int)[k]@
                            == list@[i as int]@;
                    assert(list@[k]@ == list@[i as int]@);
                }
                if distinct_texts(list@) {
                    lemma_push_distinct(prev, list@[i as int]);
                }
            }
            out.push(list[i].clone());
        }
        proof {
            assert forall|x: Seq<char>|
                #![trigger listed(out@, x)]
                listed(out@, x) <==> (listed(list@.take(i + 1), x) && x != g@) by {
                lemma_listed_take(list@, i as int, x);
                if out@.len() > prev.len() {
                    assert(out@ == prev.push(list@[i as int]));
                    lemma_listed_push(prev, list@[i as int], x);
                } else {
                    assert(out@ == prev);
                }
            }
        }
        i += 1;
    }
    proof {
        assert forall|x: Seq<char>| genre_set(out@).contains(x) <==> genre_set(list@).remove(
            g@,
        ).contains(x) by {
            lemma_listed_all(list@, x);
        }
        assert(genre_set(out@) =~= genre_set(list@).remove(g@));
    }
    out
}

/// Removes every string with the text `g` from `list`.
fn remove_text(list: &mut Vec<String>, g: &str)
    ensures
        genre_set(final(list)@) == genre_set(old(list)@).remove(g@),
        distinct_texts(old(list)@) ==> distinct_texts(final(list)@),
{
    let kept = without_text(list, g);
    *list = kept;
}

/// Adds a string with the text `g` to `list`.
fn add_text(list: &mut Vec<String>, g: &str)
    requires
        !listed(old(list)@, g@),
    ensures
        genre_set(final(list)@) == genre_set(old(list)@).insert(g@),
        distinct_texts(old(list)@) ==> distinct_texts(final(list)@),
{
    let ghost prev = list@;
    list.push(copy_text(g));
    proof {
        if distinct_texts(prev) {
            lemma_push_distinct(prev, list@[prev.len() as int]);
        }
        assert forall|x: Seq<char>| genre_set(list@).contains(x) <==> genre_set(prev).insert(
            g@,
        ).contains(x) by {
            lemma_listed_push(prev, list@[prev.len() as int], x);
        }
        assert(genre_set(list@) =~= genre_set(prev).insert(g@));
    }
}

/// A copy of `list` that names each genre once, in first-occurrence order.
pub fn distinct_copy(list: &Vec<String>) -> (out: Vec<String>)
    ensures
        genre_set(out@) == genre_set(list@),
        distinct_texts(out@),
{
    let mut out: Vec<String> = Vec::new();
    let mut i: usize = 0;
    while i < list.len()
        invariant
            i <= list.len(),
            forall|x: Seq<char>|
                #![trigger listed(out@, x)]
                listed(out@, x) <==> listed(list@.take(i as int), x),
            distinct_texts(out@),
        decreases list.len() - i,
    {
        let ghost prev = out@;
        if !is_listed(&out, list[i].as_str()) {
            proof {
                lemma_push_distinct(prev, list@[i as int]);
            }
            out.push(list[i].clone());
        }
        proof {
            assert forall|x: Seq<char>|
                #![trigger listed(out@, x)]
                listed(out@, x) <==> listed(list@.take(i + 1), x) by {
                lemma_listed_take(list@, i as int, x);
                if out@.len() > prev.len() {
                    assert(out@ == prev.push(list@[i as int]));
                    lemma_listed_push(prev, list@[i as int], x);
                } else {
                    assert(out@ == prev);
                }
            }
        }
        i += 1;
    }
    proof {
        assert forall|x: Seq<char>| genre_set(out@).contains(x) <==> genre_set(list@).contains(
            x,
        ) by {
            lemma_listed_all(list@, x);
        }
        assert(genre_set(out@) =~= genre_set(list@));
    }
    out
}

/// The (first, other) genre sets after toggling `g` in the first list: a
/// listed genre leaves it; an unlisted one joins it and leaves the other,
/// since the two lists are mutually exclusive.
pub open spec fn toggled(
    first: Set<Seq<char>>,
    other: Set<Seq<char>>,
    g: Seq<char>,
) -> (Set<Seq<char>>, Set<Seq<char>>) {
    if first.contains(g) {
        (first.remove(g), other)
    } else {
        (first.insert(g), other.remove(g))
    }
}

// ---------------------------------------------------------------------------
// Navigation

/// The index that follows `cur` in a playlist of `len` tracks: the first
/// track when none is current, the next one while there is one, else none.
pub open spec fn next_index(len: nat, cur: Option<usize>) -> Option<usize> {
    if len == 0 {
        None
    } else {
        match cur {
            None => Some(0),
            Some(i) => if i + 1 < len {
                Some((i + 1) as usize)
            } else {
                None
            },
        }
    }
}

/// The index before `cur`, if there is one.
pub open spec fn prev_index(cur: Option<usize>) -> Option<usize> {
    match cur {
        Some(i) => if i > 0 {
            Some((i - 1) as usize)
        } else {
            None
        },
        None => None,
    }
}

/// Where the current index points after the track at `index` was removed:
/// nowhere if it was that track, one lower if it was after it, else where it
/// was.
pub open spec fn index_after_removal(cur: Option<usize>, index: usize) -> Option<usize> {
    match cur {
        Some(c) => if c == index {
            None
        } else if c > index {
            Some((c - 1) as usize)
        } else {
            Some(c)
        },
        None => None,
    }
}

/// The index playback starts from when nothing plays: the current track, or
/// the first one when there is no current track but there are tracks.
pub open spec fn start_index(len: nat, cur: Option<usize>) -> Option<usize> {
    match cur {
        Some(i) => Some(i),
        None => if len == 0 {
            None
        } else {
            Some(0)
        },
    }
}

/// The global playlist and playback position.
#[derive(Clone, Debug)]
pub struct Playlist {
    pub tracks: Vec<Track>,
    /// Index of the currently playing/selected track.
    pub current: Option<usize>,
    /// If non-empty, only tracks with at least one of these genres are shown.
    pub genre_whitelist: Vec<String>,
    /// Tracks with any of these genres are hidden, even if whitelisted.
    pub genre_blacklist: Vec<String>,
}

impl Playlist {
    /// The playlist is well formed: the current index, if any, is that of a
    /// track, and the genre lists are sets (neither names a genre twice).
    pub open spec fn wf(&self) -> bool {
        &&& self.current matches Some(i) ==> i < self.tracks.len()
        &&& distinct_texts(self.genre_whitelist@)
        &&& distinct_texts(self.genre_blacklist@)
    }
}

impl Default for Playlist {
    fn default() -> (p: Self)
        ensures
            p.wf(),
            p.tracks@.len() == 0,
            p.current is None,
            p.genre_whitelist@.len() == 0,
            p.genre_blacklist@.len() == 0,
    {
        Playlist {
            tracks: Vec::new(),
            current: None,
            genre_whitelist: Vec::new(),
            genre_blacklist: Vec::new(),
        }
    }
}

impl Playlist {
    /// The index of the track after the current one (see `next_index`).
    pub fn next_track(&self) -> (r: Option<usize>)
        ensures
            r == next_index(self.tracks@.len(), self.current),
    {
        let len = self.tracks.len();
        if len == 0 {
            return None;
        }
        match self.current {
            None => Some(0),
            Some(i) => if i < len - 1 {
                Some(i + 1)
            } else {
                None
            },
        }
    }

    /// The index of the track before the current one, if any.
    pub fn prev_track(&self) -> (r: Option<usize>)
        ensures
            r == prev_index(self.current),
    {
        match self.current {
            Some(i) => if i > 0 {
                Some(i - 1)
            } else {
                None
            },
            None => None,
        }
    }

    /// Removes the track at `index`; the current index keeps pointing at the
    /// same track, or at none if that track was removed.
    pub fn remove_track(&mut self, index: usize)
        requires
            index < old(self).tracks.len(),
        ensures
            old(self).wf() ==> final(self).wf(),
            final(self).tracks@ == old(self).tracks@.remove(index as int),
            final(self).current == index_after_removal(old(self).current, index),
            final(self).genre_whitelist == old(self).genre_whitelist,
            final(self).genre_blacklist == old(self).genre_blacklist,
    {
        self.tracks.remove(index);
        match self.current {
            Some(cur) => {
                if cur == index {
                    self.current = None;
                } else if cur > index {
                    self.current = Some(cur - 1);
                }
            },
            None => {},
        }
    }

    /// Answers a request to remove the track at `index`: the track leaves as
    /// in `remove_track`, and the result gives the removed track's library id
    /// (to drop it from the library) and whether playback must stop, which it
    /// must when the removed track was the current one.
    pub fn remove_requested(&mut self, index: usize) -> (r: (u64, bool))
        requires
            index < old(self).tracks.len(),
        ensures
            r.0 == old(self).tracks@[index as int].id,
            r.1 == (old(self).current == Some(index)),
            old(self).wf() ==> final(self).wf(),
            final(self).tracks@ == old(self).tracks@.remove(index as int),
            final(self).current == index_after_removal(old(self).current, index),
            final(self).genre_whitelist == old(self).genre_whitelist,
            final(self).genre_blacklist == old(self).genre_blacklist,
    {
        let id = self.tracks[index].id;
        let stop = match self.current {
            Some(cur) => cur == index,
            None => false,
        };
        self.remove_track(index);
        (id, stop)
    }

    /// Makes the track at `i` current and returns its path, to be played.
    pub fn play_index(&mut self, i: usize) -> (path: String)
        requires
            i < old(self).tracks.len(),
        ensures
            old(self).wf() ==> final(self).wf(),
            path@ == old(self).tracks@[i as int].path@,
            final(self).current == Some(i),
            final(self).tracks == old(self).tracks,
            final(self).genre_whitelist == old(self).genre_whitelist,
            final(self).genre_blacklist == old(self).genre_blacklist,
    {
        let path = self.tracks[i].path.clone();
        self.current = Some(i);
        path
    }

    /// Moves to the next track (see `next_index`) and returns its path; none
    /// when there is no next track, and then nothing changes.
    pub fn skip_forward(&mut self) -> (path: Option<String>)
        ensures
            old(self).wf() ==> final(self).wf(),
            final(self).tracks == old(self).tracks,
            final(self).genre_whitelist == old(self).genre_whitelist,
            final(self).genre_blacklist == old(self).genre_blacklist,
            match next_index(old(self).tracks@.len(), old(self).current) {
                Some(n) => {
                    &&& final(self).current == Some(n)
                    &&& path matches Some(p) && p@ == old(self).tracks@[n as int].path@
                },
                None => final(self).current == old(self).current && path is None,
            },
    {
        match self.next_track() {
            Some(n) => Some(self.play_index(n)),
            None => None,
        }
    }

    /// Moves to the previous track and returns its path; none when there is
    /// no previous track, and then nothing changes.
    pub fn skip_back(&mut self) -> (path: Option<String>)
        requires
            old(self).current matches Some(c) ==> c <= old(self).tracks.len(),
        ensures
            old(self).wf() ==> final(self).wf(),
            final(self).tracks == old(self).tracks,
            final(self).genre_whitelist == old(self).genre_whitelist,
            final(self).genre_blacklist == old(self).genre_blacklist,
            match prev_index(old(self).current) {
                Some(p) => {
                    &&& final(self).current == Some(p)
                    &&& path matches Some(s) && s@ == old(self).tracks@[p as int].path@
                },
                None => final(self).current == old(self).current && path is None,
            },
    {
        match self.prev_track() {
            Some(p) => Some(self.play_index(p)),
            None => None,
        }
    }

    /// The play/pause action. When stopped, playback starts at the current
    /// track, or at the first one when none is current (which then becomes
    /// current); with an empty playlist nothing happens. When playing or
    /// paused, the output toggles pause.
    pub fn toggle_playback(&mut self, state: PlaybackState) -> (t: Transport)
        requires
            state == PlaybackState::Stopped ==> (old(self).current matches Some(c) ==> c
                < old(self).tracks.len()),
        ensures
            old(self).wf() ==> final(self).wf(),
            final(self).tracks == old(self).tracks,
            final(self).genre_whitelist == old(self).genre_whitelist,
            final(self).genre_blacklist == old(self).genre_blacklist,
            state != PlaybackState::Stopped ==> t is TogglePause && final(self).current == old(
                self,
            ).current,
            state == PlaybackState::Stopped ==> match start_index(
                old(self).tracks@.len(),
                old(self).current,
            ) {
                Some(i) => {
                    &&& final(self).current == Some(i)
                    &&& t matches Transport::Play(p) && p@ == old(self).tracks@[i as int].path@
                },
                None => t is Idle && final(self).current == old(self).current,
            },
    {
        match state {
            PlaybackState::Stopped => {
                let idx = match self.current {
                    Some(i) => Some(i),
                    None => if self.tracks.len() == 0 {
                        None
                    } else {
                        Some(0)
                    },
                };
                match idx {
                    Some(i) => Transport::Play(self.play_index(i)),
                    None => Transport::Idle,
                }
            },
            _ => Transport::TogglePause,
        }
    }

    /// What a remote (MPRIS) command asks of the player, given the playback
    /// state: play/pause as `toggle_playback`; play toggles unless playing;
    /// pause toggles only when playing; next and previous move as
    /// `skip_forward` and `skip_back` and play the new track; stop stops; a
    /// seek goes to the position, negative ones to the start.
    pub fn apply_mpris(&mut self, cmd: MprisCommand, state: PlaybackState) -> (t: Transport)
        requires
            cmd == MprisCommand::PlayPause && state == PlaybackState::Stopped ==> (old(
                self,
            ).current matches Some(c) ==> c < old(self).tracks.len()),
            cmd == MprisCommand::Previous ==> (old(self).current matches Some(c) ==> c <= old(
                self,
            ).tracks.len()),
        ensures
            old(self).wf() ==> final(self).wf(),
            final(self).tracks == old(self).tracks,
            final(self).genre_whitelist == old(self).genre_whitelist,
            final(self).genre_blacklist == old(self).genre_blacklist,
            match cmd {
                MprisCommand::PlayPause => state != PlaybackState::Stopped ==> (t is TogglePause
                    && final(self).current == old(self).current),
                MprisCommand::Play => (if state != PlaybackState::Playing {
                    t is TogglePause
                } else {
                    t is Idle
                }) && final(self).current == old(self).current,
                MprisCommand::Pause => (if state == PlaybackState::Playing {
                    t is TogglePause
                } else {
                    t is Idle
                }) && final(self).current == old(self).current,
                MprisCommand::Stop => t is Stop && final(self).current == old(self).current,
                MprisCommand::Next => match next_index(old(self).tracks@.len(), old(self).current) {
                    Some(n) => final(self).current == Some(n) && (t matches Transport::Play(p)
                        && p@ == old(self).tracks@[n as int].path@),
                    None => final(self).current == old(self).current && t is Idle,
                },
                MprisCommand::Previous => match prev_index(old(self).current) {
                    Some(n) => final(self).current == Some(n) && (t matches Transport::Play(p)
                        && p@ == old(self).tracks@[n as int].path@),
                    None => final(self).current == old(self).current && t is Idle,
                },
                MprisCommand::Seek(micros) => t == Transport::SeekMicros(seek_position(micros))
                    && final(self).current == old(self).current,
            },
            cmd == MprisCommand::PlayPause && state == PlaybackState::Stopped ==> match start_index(
                old(self).tracks@.len(),
                old(self).current,
            ) {
                Some(i) => {
                    &&& final(self).current == Some(i)
                    &&& t matches Transport::Play(p) && p@ == old(self).tracks@[i as int].path@
                },
                None => t is Idle && final(self).current == old(self).current,
            },
    {
        match cmd {
            MprisCommand::PlayPause => self.toggle_playback(state),
            MprisCommand::Play => if state != PlaybackState::Playing {
                Transport::TogglePause
            } else {
                Transport::Idle
            },
            MprisCommand::Pause => if state == PlaybackState::Playing {
                Transport::TogglePause
            } else {
                Transport::Idle
            },
            MprisCommand::Stop => Transport::Stop,
            MprisCommand::Next => match self.skip_forward() {
                Some(p) => Transport::Play(p),
                None => Transport::Idle,
            },
            MprisCommand::Previous => match self.skip_back() {
                Some(p) => Transport::Play(p),
                None => Transport::Idle,
            },
            MprisCommand::Seek(micros) => Transport::SeekMicros(clamp_seek(micros)),
        }
    }

    /// Whether a track with these genres should be visible under the current
    /// whitelist and blacklist (see `genres_allowed`).
    pub fn genre_visible(&self, track: &Track) -> (r: bool)
        ensures
            r == genres_allowed(track.genres@, self.genre_whitelist@, self.genre_blacklist@),
    {
        proof {
            lemma_genre_set_empty(self.genre_whitelist@);
        }
        if any_listed(&track.genres, &self.genre_blacklist) {
            return false;
        }
        if self.genre_whitelist.len() != 0 && !any_listed(&track.genres, &self.genre_whitelist) {
            return false;
        }
        true
    }

    /// Toggles `genre` in the whitelist. Adding it also takes it off the
    /// blacklist: the two lists are mutually exclusive.
    pub fn toggle_whitelist(&mut self, genre: &str)
        ensures
            final(self).tracks == old(self).tracks,
            final(self).current == old(self).current,
            (genre_set(final(self).genre_whitelist@), genre_set(final(self).genre_blacklist@))
                == toggled(
                genre_set(old(self).genre_whitelist@),
                genre_set(old(self).genre_blacklist@),
                genre@,
            ),
            genre_set(old(self).genre_whitelist@).contains(genre@) ==> final(self).genre_blacklist
                == old(self).genre_blacklist,
            old(self).wf() ==> final(self).wf(),
    {
        if is_listed(&self.genre_whitelist, genre) {
            remove_text(&mut self.genre_whitelist, genre);
        } else {
            add_text(&mut self.genre_whitelist, genre);
            remove_text(&mut self.genre_blacklist, genre);
        }
    }

    /// Toggles `genre` in the blacklist. Adding it also takes it off the
    /// whitelist: the two lists are mutually exclusive.
    pub fn toggle_blacklist(&mut self, genre: &str)
        ensures
            final(self).tracks == old(self).tracks,
            final(self).current == old(self).current,
            (genre_set(final(self).genre_blacklist@), genre_set(final(self).genre_whitelist@))
                == toggled(
                genre_set(old(self).genre_blacklist@),
                genre_set(old(self).genre_whitelist@),
                genre@,
            ),
            genre_set(old(self).genre_blacklist@).contains(genre@) ==> final(self).genre_whitelist
                == old(self).genre_whitelist,
            old(self).wf() ==> final(self).wf(),
    {
        if is_listed(&self.genre_blacklist, genre) {
            remove_text(&mut self.genre_blacklist, genre);
        } else {
            add_text(&mut self.genre_blacklist, genre);
            remove_text(&mut self.genre_whitelist, genre);
        }
    }

    /// Empties both genre lists.
    pub fn clear_genre_filters(&mut self)
        ensures
            final(self).tracks == old(self).tracks,
            final(self).current == old(self).current,
            final(self).genre_whitelist@.len() == 0,
            final(self).genre_blacklist@.len() == 0,
            old(self).wf() ==> final(self).wf(),
    {
        self.genre_whitelist.clear();
        self.genre_blacklist.clear();
    }

    /// Removes every track; no track is current.
    pub fn clear_tracks(&mut self)
        ensures
            old(self).wf() ==> final(self).wf(),
            final(self).tracks@.len() == 0,
            final(self).current is None,
            final(self).genre_whitelist == old(self).genre_whitelist,
            final(self).genre_blacklist == old(self).genre_blacklist,
    {
        self.tracks.clear();
        self.current = None;
    }
}


// ---------------------------------------------------------------------------
// Adding, finding, shuffling and merging tracks

/// The tracks of `s` whose path has a supported format, in order.
pub open spec fn supported_tracks(s: Seq<Track>) -> Seq<Track>
    decreases s.len(),
{
    if s.len() == 0 {
        s
    } else if is_supported_path(s.last().path@) {
        supported_tracks(s.drop_last()).push(s.last())
    } else {
        supported_tracks(s.drop_last())
    }
}

/// The paths of `s` that have a supported format, in order.
pub open spec fn supported_paths(s: Seq<String>) -> Seq<String>
    decreases s.len(),
{
    if s.len() == 0 {
        s
    } else if is_supported_path(s.last()@) {
        supported_paths(s.drop_last()).push(s.last())
    } else {
        supported_paths(s.drop_last())
    }
}

/// Keeps the paths that have a supported format, in order.
pub fn select_supported(paths: Vec<String>) -> (out: Vec<String>)
    ensures
        out@ == supported_paths(paths@),
{
    let mut out: Vec<String> = Vec::new();
    let mut i: usize = 0;
    while i < paths.len()
        invariant
            i <= paths.len(),
            out@ == supported_paths(paths@.take(i as int)),
        decreases paths.len() - i,
    {
        proof {
            assert(paths@.take(i + 1).drop_last() =~= paths@.take(i as int));
        }
        if is_supported_format(paths[i].as_str()) {
            out.push(paths[i].clone());
        }
        i += 1;
    }
    assert(paths@.take(paths.len() as int) =~= paths@);
    out
}

/// `r` is the first index of `s` whose track has the path `p`, or none if no
/// track has it.
pub open spec fn first_with_path(s: Seq<Track>, p: Seq<char>, r: Option<usize>) -> bool {
    match r {
        Some(j) => {
            &&& j < s.len()
            &&& s[j as int].path@ == p
            &&& forall|k: int| 0 <= k < j ==> (#[trigger] s[k]).path@ != p
        },
        None => forall|k: int| 0 <= k < s.len() ==> (#[trigger] s[k]).path@ != p,
    }
}

/// `r` is the first index of `s` whose track has the id `id`, or none if no
/// track has it.
pub open spec fn first_with_id(s: Seq<Track>, id: u64, r: Option<usize>) -> bool {
    match r {
        Some(j) => {
            &&& j < s.len()
            &&& s[j as int].id == id
            &&& forall|k: int| 0 <= k < j ==> (#[trigger] s[k]).id != id
        },
        None => forall|k: int| 0 <= k < s.len() ==> (#[trigger] s[k]).id != id,
    }
}

/// The index of the first track with the path `path`.
fn position_of_path(tracks: &Vec<Track>, path: &String) -> (r: Option<usize>)
    ensures
        first_with_path(tracks@, path@, r),
{
    let mut i: usize = 0;
    while i < tracks.len()
        invariant
            i <= tracks.len(),
            forall|k: int| 0 <= k < i ==> (#[trigger] tracks@[k]).path@ != path@,
        decreases tracks.len() - i,
    {
        if tracks[i].path == *path {
            return Some(i);
        }
        i += 1;
    }
    None
}

/// `rand`'s `SliceRandom::shuffle` with the thread-local generator. Its
/// Fisher-Yates loop only swaps elements, so the result is a permutation of
/// the input; which one is left to chance and not stated.
#[verifier::external_body]
fn shuffle_in_place<T>(v: &mut Vec<T>)
    ensures
        final(v)@.to_multiset() == old(v)@.to_multiset(),
{
    rand::seq::SliceRandom::shuffle(v.as_mut_slice(), &mut rand::rng())
}

/// Some track of `s` has the id `id`.
pub open spec fn has_id(s: Seq<TrackView>, id: u64) -> bool {
    exists|k: int| 0 <= k < s.len() && (#[trigger] s[k]).id == id
}

/// The tracks after merging the first `n` freshly loaded records with the
/// library ids they were given: a record whose id is known and not yet in
/// the playlist is appended with that id; the others are dropped.
pub open spec fn merged_tracks(
    tracks: Seq<TrackView>,
    records: Seq<TrackView>,
    ids: Seq<Option<u64>>,
    n: nat,
) -> Seq<TrackView>
    decreases n,
{
    if n == 0 {
        tracks
    } else {
        let prev = merged_tracks(tracks, records, ids, (n - 1) as nat);
        match ids[n - 1] {
            Some(id) => if has_id(prev, id) {
                prev
            } else {
                prev.push(TrackView { id: id, ..records[n - 1] })
            },
            None => prev,
        }
    }
}

/// The smaller of two lengths.
pub open spec fn min_len(a: nat, b: nat) -> nat {
    if a < b {
        a
    } else {
        b
    }
}

impl Playlist {
    /// Appends the given tracks whose file format is supported, in order.
    pub fn add_tracks(&mut self, tracks: Vec<Track>)
        ensures
            old(self).wf() ==> final(self).wf(),
            final(self).tracks@ == old(self).tracks@ + supported_tracks(tracks@),
            final(self).current == old(self).current,
            final(self).genre_whitelist == old(self).genre_whitelist,
            final(self).genre_blacklist == old(self).genre_blacklist,
    {
        let mut rest = tracks;
        let ghost all = rest@;
        let ghost start = self.tracks@;
        let mut kept: Vec<Track> = Vec::new();
        // Take the tracks out from the back, then append the kept ones in order.
        while rest.len() > 0
            invariant
                rest@ == all.take(rest.len() as int),
                rest.len() <= all.len(),
                supported_tracks(all) == supported_tracks(rest@) + kept@.reverse(),
            decreases rest.len(),
        {
            let ghost before = rest@;
            let t = rest.pop().unwrap();
            proof {
                assert(before.drop_last() =~= rest@);
                assert(before.last() == t);
                assert(all.take(rest.len() as int) =~= rest@);
            }
            if is_supported_format(t.path.as_str()) {
                let ghost k = kept@;
                kept.push(t);
                proof {
                    assert(kept@.reverse() =~= seq![t] + k.reverse());
                    assert(supported_tracks(before) == supported_tracks(rest@).push(t));
                    assert(supported_tracks(rest@).push(t) + k.reverse() =~= supported_tracks(
                        rest@,
                    ) + kept@.reverse());
                }
            }
        }
        proof {
            assert(rest@ =~= Seq::<Track>::empty());
        }
        while kept.len() > 0
            invariant
                self.tracks@ + kept@.reverse() == start + supported_tracks(all),
                self.current == old(self).current,
                self.genre_whitelist == old(self).genre_whitelist,
                self.genre_blacklist == old(self).genre_blacklist,
            decreases kept.len(),
        {
            let ghost k = kept@;
            let ghost tr = self.tracks@;
            let t = kept.pop().unwrap();
            self.tracks.push(t);
            proof {
                assert(k =~= kept@.push(t));
                assert(k.reverse() =~= seq![t] + kept@.reverse());
                assert(self.tracks@ + kept@.reverse() =~= tr + k.reverse());
            }
        }
        proof {
            assert(kept@.reverse() =~= Seq::<Track>::empty());
            assert(self.tracks@ =~= self.tracks@ + kept@.reverse());
        }
    }

    /// The index of the first track with library id `id`.
    pub fn position_of_id(&self, id: u64) -> (r: Option<usize>)
        ensures
            first_with_id(self.tracks@, id, r),
    {
        let mut i: usize = 0;
        while i < self.tracks.len()
            invariant
                i <= self.tracks.len(),
                forall|k: int| 0 <= k < i ==> (#[trigger] self.tracks@[k]).id != id,
            decreases self.tracks.len() - i,
        {
            if self.tracks[i].id == id {
                return Some(i);
            }
            i += 1;
        }
        None
    }

    /// Resumes at the saved track: if a track with id `track_id` is in the
    /// playlist, the first such becomes current and the result is true;
    /// otherwise nothing changes.
    pub fn resume_track(&mut self, track_id: u64) -> (found: bool)
        ensures
            old(self).wf() ==> final(self).wf(),
            final(self).tracks == old(self).tracks,
            final(self).genre_whitelist == old(self).genre_whitelist,
            final(self).genre_blacklist == old(self).genre_blacklist,
            found == has_id(track_views(old(self).tracks@), track_id),
            found ==> first_with_id(old(self).tracks@, track_id, final(self).current),
            !found ==> final(self).current == old(self).current,
    {
        match self.position_of_id(track_id) {
            Some(i) => {
                self.current = Some(i);
                assert(track_views(self.tracks@)[i as int].id == track_id);
                true
            },
            None => {
                proof {
                    if has_id(track_views(self.tracks@), track_id) {
                        let k = choose|k: int|
                            0 <= k < track_views(self.tracks@).len() && (#[trigger] track_views(
                                self.tracks@,
                            )[k]).id == track_id;
                        assert(self.tracks@[k].id == track_id);
                    }
                }
                false
            },
        }
    }

    /// Shuffles the tracks, keeping the current track current: afterwards
    /// the current index is the first one holding a track with the path of
    /// the track that was current.
    pub fn shuffle(&mut self)
        requires
            old(self).current matches Some(i) ==> i < old(self).tracks.len(),
        ensures
            old(self).wf() ==> final(self).wf(),
            final(self).tracks@.to_multiset() == old(self).tracks@.to_multiset(),
            final(self).genre_whitelist == old(self).genre_whitelist,
            final(self).genre_blacklist == old(self).genre_blacklist,
            match old(self).current {
                None => final(self).current is None,
                Some(i) => first_with_path(
                    final(self).tracks@,
                    old(self).tracks@[i as int].path@,
                    final(self).current,
                ),
            },
    {
        let current_path = match self.current {
            Some(i) => Some(self.tracks[i].path.clone()),
            None => None,
        };
        shuffle_in_place(&mut self.tracks);
        self.current = match current_path {
            Some(p) => position_of_path(&self.tracks, &p),
            None => None,
        };
    }

    /// Whether the track passes both the text filter and the genre filters.
    pub open spec fn shows(&self, t: Track, filter: Seq<char>, scope: FilterScope) -> bool {
        &&& passes_filter(t@, filter, scope)
        &&& genres_allowed(t.genres@, self.genre_whitelist@, self.genre_blacklist@)
    }

    /// The indices of the tracks to list, in playlist order: those that pass
    /// the text filter `filter` in `scope` and the genre filters.
    pub fn visible_tracks(&self, filter: &str, scope: FilterScope) -> (r: Vec<usize>)
        ensures
            forall|a: int, b: int| 0 <= a < b < r.len() ==> r@[a] < r@[b],
            forall|a: int|
                0 <= a < r.len() ==> r@[a] < self.tracks.len() && self.shows(
                    self.tracks@[r@[a] as int],
                    filter@,
                    scope,
                ),
            forall|i: int|
                0 <= i < self.tracks.len() && self.shows(#[trigger] self.tracks@[i], filter@, scope)
                    ==> r@.contains(i as usize),
    {
        let mut r: Vec<usize> = Vec::new();
        let mut i: usize = 0;
        while i < self.tracks.len()
            invariant
                i <= self.tracks.len(),
                forall|a: int, b: int| 0 <= a < b < r.len() ==> r@[a] < r@[b],
                forall|a: int| 0 <= a < r.len() ==> r@[a] < i,
                forall|a: int|
                    0 <= a < r.len() ==> self.shows(self.tracks@[r@[a] as int], filter@, scope),
                forall|k: int|
                    0 <= k < i && self.shows(#[trigger] self.tracks@[k], filter@, scope)
                        ==> r@.contains(k as usize),
            decreases self.tracks.len() - i,
        {
            let t = &self.tracks[i];
            if t.matches_filter(filter, scope) && self.genre_visible(t) {
                let ghost prev = r@;
                r.push(i);
                proof {
                    assert forall|k: int|
                        0 <= k < i + 1 && self.shows(#[trigger] self.tracks@[k], filter@, scope)
                            implies r@.contains(k as usize) by {
                        if k < i {
                            let a = choose|a: int| 0 <= a < prev.len() && prev[a] == k as usize;
                            assert(r@[a] == k as usize);
                        } else {
                            assert(r@[prev.len() as int] == i);
                        }
                    }
                }
            }
            i += 1;
        }
        r
    }

    /// Merges freshly loaded records with the library ids they were given,
    /// pairing them up to the shorter list (see `merged_tracks`); then, if no
    /// track is current and there are tracks, the first becomes current.
    pub fn merge_loaded(&mut self, records: &Vec<TrackRecord>, ids: &Vec<Option<u64>>)
        ensures
            old(self).wf() ==> final(self).wf(),
            track_views(final(self).tracks@) == merged_tracks(
                track_views(old(self).tracks@),
                record_views(records@),
                ids@,
                min_len(records@.len(), ids@.len()),
            ),
            final(self).current == (if old(self).current is None && final(self).tracks@.len() > 0 {
                Some(0usize)
            } else {
                old(self).current
            }),
            final(self).genre_whitelist == old(self).genre_whitelist,
            final(self).genre_blacklist == old(self).genre_blacklist,
    {
        let n = if records.len() < ids.len() {
            records.len()
        } else {
            ids.len()
        };
        let ghost tv = track_views(self.tracks@);
        let ghost rv = record_views(records@);
        let mut k: usize = 0;
        while k < n
            invariant
                k <= n,
                n <= records.len(),
                n <= ids.len(),
                tv == track_views(old(self).tracks@),
                rv == record_views(records@),
                track_views(self.tracks@) == merged_tracks(tv, rv, ids@, k as nat),
                self.tracks@.len() >= old(self).tracks@.len(),
                self.current == old(self).current,
                self.genre_whitelist == old(self).genre_whitelist,
                self.genre_blacklist == old(self).genre_blacklist,
            decreases n - k,
        {
            let ghost prev = merged_tracks(tv, rv, ids@, k as nat);
            match ids[k] {
                Some(id) => {
                    let known = self.position_of_id(id);
                    proof {
                        assert(track_views(self.tracks@) == prev);
                        match known {
                            Some(j) => {
                                assert(prev[j as int].id == id);
                            },
                            None => {
                                if has_id(prev, id) {
                                    let q = choose|q: int|
                                        0 <= q < prev.len() && (#[trigger] prev[q]).id == id;
                                    assert(self.tracks@[q].id == id);
                                }
                            },
                        }
                    }
                    if known.is_none() {
                        let mut t = Track::from_record(records[k].duplicate());
                        t.id = id;
                        let ghost before = self.tracks@;
                        self.tracks.push(t);
                        proof {
                            assert(rv[k as int] == records@[k as int]@);
                            assert(track_views(self.tracks@) =~= track_views(before).push(
                                TrackView { id: id, ..rv[k as int] },
                            ));
                        }
                    }
                },
                None => {},
            }
            k += 1;
        }
        if self.current.is_none() && self.tracks.len() > 0 {
            self.current = Some(0);
        }
    }
}

} // verus!
