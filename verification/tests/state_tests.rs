use valser::control::{
    audio_step, clamp_seek, pick_shortcut, seek_target, AudioStep, Keys, LoadResult, LoadingState,
    PlaybackState, PositionUpdate, Shortcut, DRAIN_LIMIT, MAX_POSITION_NANOS,
};
use valser::playlist::Playlist;
use valser::state::{
    build_app_state, new_record_count, plan_batch_insert, restore_playlist, AppState, FIRST_TRACK_ID,
};
use valser::track::{FilterScope, Track, TrackRecord};

fn record(id: u64, path: &str) -> TrackRecord {
    TrackRecord {
        id,
        path: path.to_string(),
        name: path.to_string(),
        title: None,
        artist: None,
        genres: Vec::new(),
        duration_secs: None,
    }
}

fn no_keys() -> Keys {
    Keys {
        typing: false,
        ctrl: false,
        shift: false,
        play_pause: false,
        arrow_right: false,
        arrow_left: false,
        key_j: false,
        key_l: false,
        media_next: false,
        media_previous: false,
        key_o: false,
        key_s: false,
    }
}

#[test]
fn scope_names_round_trip() {
    for s in [FilterScope::TrackName, FilterScope::Artist, FilterScope::FileName] {
        assert_eq!(FilterScope::from_name(&s.name()), s);
    }
    assert_eq!(FilterScope::TrackName.name(), "name");
    assert_eq!(FilterScope::Artist.name(), "artist");
    assert_eq!(FilterScope::FileName.name(), "filename");
    assert_eq!(FilterScope::from_name("bogus"), FilterScope::TrackName);
    assert_eq!(FilterScope::from_name(""), FilterScope::TrackName);
}

#[test]
fn default_state_is_empty() {
    let s = AppState::default();
    assert!(s.playlist_order.is_empty());
    assert_eq!(s.current_index, None);
    assert!(s.filter_text.is_empty());
}

#[test]
fn save_then_restore_same_playlist() {
    let mut p = Playlist::default();
    for (id, path) in [(3u64, "c.mp3"), (1, "a.mp3"), (2, "b.mp3")] {
        p.tracks.push(Track::from_record(record(id, path)));
    }
    p.current = Some(2);
    p.toggle_whitelist("Rock");
    p.toggle_blacklist("Pop");
    let state = build_app_state(&p, "beat", FilterScope::Artist);
    assert_eq!(state.playlist_order, vec![3, 1, 2]);
    assert_eq!(state.current_index, Some(2));
    assert_eq!(state.filter_text, "beat");
    assert_eq!(state.filter_scope, "artist");
    assert_eq!(state.genre_whitelist, vec!["Rock".to_string()]);
    assert_eq!(state.genre_blacklist, vec!["Pop".to_string()]);
    // The store hands back the records of the saved ids, in id order here.
    let records = vec![record(1, "a.mp3"), record(2, "b.mp3"), record(3, "c.mp3")];
    let q = restore_playlist(&state, &records);
    let order: Vec<u64> = q.tracks.iter().map(|t| t.id).collect();
    assert_eq!(order, vec![3, 1, 2]);
    assert_eq!(q.current, Some(2));
    assert_eq!(q.genre_whitelist, vec!["Rock".to_string()]);
}

#[test]
fn restore_skips_repeated_and_missing_ids() {
    let mut state = AppState::default();
    state.playlist_order = vec![2, 9, 2, 1];
    let records = vec![record(1, "a.mp3"), record(2, "old-b.mp3"), record(2, "b.mp3")];
    let q = restore_playlist(&state, &records);
    let got: Vec<(u64, String)> = q.tracks.iter().map(|t| (t.id, t.path.clone())).collect();
    assert_eq!(got, vec![(2, "b.mp3".to_string()), (1, "a.mp3".to_string())]);
}

#[test]
fn restore_without_order_takes_all_records() {
    let state = AppState::default();
    let q = restore_playlist(&state, &vec![record(4, "d.mp3"), record(5, "e.mp3")]);
    let got: Vec<u64> = q.tracks.iter().map(|t| t.id).collect();
    assert_eq!(got, vec![4, 5]);
    assert_eq!(q.current, None);
}

#[test]
fn batch_insert_skips_known_paths() {
    let existing = vec![(1u64, "a.mp3".to_string()), (2, "b.mp3".to_string()), (4, "a.mp3".to_string())];
    let records = vec![record(0, "a.mp3"), record(0, "new.mp3"), record(0, "b.mp3"), record(0, "new.mp3")];
    let plan = plan_batch_insert(&existing, &records, 10);
    assert_eq!(plan.ids, vec![None, Some(10), None, None]);
    let inserted: Vec<(u64, String)> = plan.inserts.iter().map(|r| (r.id, r.path.clone())).collect();
    assert_eq!(inserted, vec![(10, "new.mp3".to_string())]);
    assert_eq!(plan.next_id, 11);
}

#[test]
fn batch_insert_second_batch() {
    let first = plan_batch_insert(&Vec::new(), &vec![record(0, "/a.mp3"), record(0, "/b.mp3")], FIRST_TRACK_ID);
    assert_eq!(first.ids, vec![Some(1), Some(2)]);
    let existing: Vec<(u64, String)> = first.inserts.iter().map(|r| (r.id, r.path.clone())).collect();
    let second = plan_batch_insert(&existing, &vec![record(0, "/b.mp3"), record(0, "/c.mp3")], first.next_id);
    assert_eq!(second.ids, vec![None, Some(3)]);
    assert_eq!(second.inserts.len(), 1);
    assert_eq!(second.inserts[0].path, "/c.mp3");
    assert_eq!(second.next_id, 4);
}

#[test]
fn batch_insert_into_empty_library() {
    let plan = plan_batch_insert(&Vec::new(), &vec![record(0, "x.mp3")], FIRST_TRACK_ID);
    assert_eq!(plan.ids, vec![Some(1)]);
    assert_eq!(plan.next_id, 2);
    let empty = plan_batch_insert(&Vec::new(), &Vec::new(), 7);
    assert!(empty.ids.is_empty());
    assert_eq!(empty.next_id, 7);
}

#[test]
fn restore_drops_out_of_range_current() {
    let mut state = AppState::default();
    state.current_index = Some(5);
    let q = restore_playlist(&state, &vec![record(1, "a.mp3")]);
    assert_eq!(q.tracks.len(), 1);
    assert_eq!(q.current, None);
    state.current_index = Some(0);
    let q = restore_playlist(&state, &vec![record(1, "a.mp3")]);
    assert_eq!(q.current, Some(0));
}

#[test]
fn status_text_while_loading() {
    let mut s = LoadingState::default();
    assert_eq!(s.status_text(), "");
    s.files_queued(10);
    assert_eq!(s.status_text(), "Loading… 0/10");
    let mut pending = Vec::new();
    assert!(s.absorb(LoadResult::Record(record(0, "a.mp3")), &mut pending));
    assert!(s.absorb(LoadResult::Record(record(0, "b.mp3")), &mut pending));
    assert_eq!(s.status_text(), "Loading… 2/10");
    assert_eq!(pending.len(), 2);
    assert!(!s.absorb(LoadResult::BatchDone, &mut pending));
    assert!(!s.is_loading);
    assert_eq!(s.status_text(), "");
}

#[test]
fn queueing_updates_counts() {
    let mut s = LoadingState::default();
    s.files_queued(3);
    s.files_queued(2);
    assert_eq!((s.queued, s.loaded, s.is_loading), (5, 0, true));
    s.loaded = 4;
    s.file_queued();
    assert_eq!((s.queued, s.loaded), (6, 4));
    s.directory_queued(12);
    assert_eq!((s.queued, s.loaded, s.is_loading), (12, 0, true));
}

#[test]
fn shortcut_precedence() {
    assert_eq!(pick_shortcut(no_keys()), None);
    let mut k = no_keys();
    k.play_pause = true;
    k.arrow_right = true;
    assert_eq!(pick_shortcut(k), Some(Shortcut::PlayPause));
    k.typing = true;
    assert_eq!(pick_shortcut(k), None);
    let mut k = no_keys();
    k.arrow_left = true;
    k.key_j = true;
    assert_eq!(pick_shortcut(k), Some(Shortcut::SeekBackward(500)));
    let mut k = no_keys();
    k.key_j = true;
    assert_eq!(pick_shortcut(k), Some(Shortcut::SeekForward(10_000)));
    let mut k = no_keys();
    k.key_l = true;
    assert_eq!(pick_shortcut(k), Some(Shortcut::SeekBackward(10_000)));
    let mut k = no_keys();
    k.ctrl = true;
    k.shift = true;
    k.key_o = true;
    assert_eq!(pick_shortcut(k), Some(Shortcut::AddDirectory));
    k.shift = false;
    assert_eq!(pick_shortcut(k), Some(Shortcut::AddFiles));
    let mut k = no_keys();
    k.key_s = true;
    assert_eq!(pick_shortcut(k), None);
    k.ctrl = true;
    assert_eq!(pick_shortcut(k), Some(Shortcut::Shuffle));
    let mut k = no_keys();
    k.media_previous = true;
    assert_eq!(pick_shortcut(k), Some(Shortcut::Previous));
    k.media_next = true;
    assert_eq!(pick_shortcut(k), Some(Shortcut::Next));
}

#[test]
fn playback_state_steps() {
    assert_eq!(PlaybackState::default(), PlaybackState::Stopped);
    assert_eq!(PlaybackState::after_toggle(true), PlaybackState::Paused);
    assert_eq!(PlaybackState::after_toggle(false), PlaybackState::Playing);
    assert_eq!(PlaybackState::Playing.after_poll(true), (PlaybackState::Stopped, true));
    assert_eq!(PlaybackState::Playing.after_poll(false), (PlaybackState::Playing, false));
    assert_eq!(PlaybackState::Paused.after_poll(true), (PlaybackState::Paused, false));
    assert_eq!(PlaybackState::Stopped.after_poll(true), (PlaybackState::Stopped, false));
}

#[test]
fn seek_clamps_negative() {
    assert_eq!(clamp_seek(-1), 0);
    assert_eq!(clamp_seek(0), 0);
    assert_eq!(clamp_seek(123), 123);
}

#[test]
fn new_record_count_counts_unknown_paths() {
    let existing = vec![(1u64, "a.mp3".to_string())];
    let records = vec![record(0, "a.mp3"), record(0, "b.mp3"), record(0, "b.mp3")];
    assert_eq!(new_record_count(&existing, &records), 1);
    assert_eq!(new_record_count(&existing, &Vec::new()), 0);
}

#[test]
fn restore_names_each_genre_once() {
    let mut state = AppState::default();
    state.genre_whitelist = vec!["Rock".to_string(), "Pop".to_string(), "Rock".to_string()];
    state.genre_blacklist = vec!["Ska".to_string(), "Ska".to_string()];
    let q = restore_playlist(&state, &Vec::new());
    assert_eq!(q.genre_whitelist, vec!["Rock".to_string(), "Pop".to_string()]);
    assert_eq!(q.genre_blacklist, vec!["Ska".to_string()]);
    assert!(q.tracks.is_empty());
}

#[test]
fn seek_targets_saturate() {
    let ms = 1_000_000u128;
    assert_eq!(seek_target(200 * ms, Shortcut::SeekBackward(500)), Some(0));
    assert_eq!(seek_target(800 * ms, Shortcut::SeekBackward(500)), Some(300 * ms));
    assert_eq!(seek_target(800 * ms, Shortcut::SeekForward(10_000)), Some(10_800 * ms));
    assert_eq!(seek_target(MAX_POSITION_NANOS - 1, Shortcut::SeekForward(500)), Some(MAX_POSITION_NANOS));
    assert_eq!(seek_target(5, Shortcut::Next), None);
    assert_eq!(MAX_POSITION_NANOS, std::time::Duration::MAX.as_nanos());
}

#[test]
fn audio_step_frames() {
    assert_eq!(
        audio_step(PlaybackState::Stopped, true, None, false, false),
        AudioStep { state: PlaybackState::Playing, finished: false, position: PositionUpdate::FromOutput }
    );
    assert_eq!(
        audio_step(PlaybackState::Playing, false, Some(true), false, false),
        AudioStep { state: PlaybackState::Paused, finished: false, position: PositionUpdate::Keep }
    );
    assert_eq!(
        audio_step(PlaybackState::Playing, true, Some(true), false, true),
        AudioStep { state: PlaybackState::Paused, finished: false, position: PositionUpdate::Zero }
    );
    assert_eq!(
        audio_step(PlaybackState::Playing, false, None, true, true),
        AudioStep { state: PlaybackState::Stopped, finished: false, position: PositionUpdate::Zero }
    );
    assert_eq!(
        audio_step(PlaybackState::Playing, false, None, false, true),
        AudioStep { state: PlaybackState::Stopped, finished: true, position: PositionUpdate::Zero }
    );
    assert_eq!(
        audio_step(PlaybackState::Paused, false, None, false, true),
        AudioStep { state: PlaybackState::Paused, finished: false, position: PositionUpdate::Keep }
    );
}

#[test]
fn batch_insert_keeps_library_paths_distinct() {
    let existing = vec![(1u64, "/a.mp3".to_string()), (2, "/b.mp3".to_string())];
    let records = vec![
        record(0, "/c.mp3"),
        record(0, "/a.mp3"),
        record(0, "/c.mp3"),
        record(0, "/d.mp3"),
        record(0, "/d.mp3"),
    ];
    let plan = plan_batch_insert(&existing, &records, 3);
    let mut library: Vec<String> = existing.iter().map(|e| e.1.clone()).collect();
    library.extend(plan.inserts.iter().map(|r| r.path.clone()));
    assert_eq!(library, vec!["/a.mp3", "/b.mp3", "/c.mp3", "/d.mp3"]);
    assert_eq!(plan.ids, vec![Some(3), None, None, Some(4), None]);
}

#[test]
fn drain_stops_on_empty_channel() {
    let mut s = LoadingState { is_loading: true, queued: 2, loaded: 0 };
    let mut pending = Vec::new();
    assert!(!s.drain_step(0, None, &mut pending));
    assert_eq!(s, LoadingState { is_loading: true, queued: 2, loaded: 0 });
    assert!(pending.is_empty());
}

#[test]
fn drain_takes_records_until_the_frame_limit() {
    let mut s = LoadingState { is_loading: true, queued: 600, loaded: 0 };
    let mut pending = Vec::new();
    let mut taken = 0usize;
    while s.drain_step(taken, Some(LoadResult::Record(record(0, "/x.mp3"))), &mut pending) {
        taken += 1;
    }
    assert_eq!(taken, DRAIN_LIMIT - 1);
    assert_eq!(pending.len(), 500);
    assert_eq!(s.loaded, 500);
    assert!(s.is_loading);
}

#[test]
fn drain_stops_at_batch_end() {
    let mut s = LoadingState { is_loading: true, queued: 1, loaded: 1 };
    let mut pending = Vec::new();
    assert!(!s.drain_step(3, Some(LoadResult::BatchDone), &mut pending));
    assert!(!s.is_loading);
    assert!(pending.is_empty());
}
