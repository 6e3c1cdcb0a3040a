use valser::control::{MprisCommand, PlaybackState, Transport};
use valser::playlist::{select_supported, Playlist};
use valser::track::{FilterScope, Track, TrackRecord};

fn track(path: &str, genres: &[&str]) -> Track {
    Track::new(path.to_string(), None, None, genres.iter().map(|g| g.to_string()).collect())
}

fn with_id(path: &str, id: u64) -> Track {
    let mut t = track(path, &[]);
    t.id = id;
    t
}

fn playlist(paths: &[&str]) -> Playlist {
    let mut p = Playlist::default();
    for path in paths {
        p.tracks.push(track(path, &[]));
    }
    p
}

fn paths(p: &Playlist) -> Vec<String> {
    p.tracks.iter().map(|t| t.path.clone()).collect()
}

fn record(id: u64, path: &str) -> TrackRecord {
    TrackRecord {
        id,
        path: path.to_string(),
        name: path.to_string(),
        title: None,
        artist: None,
        genres: Vec::new(),
        duration_secs: None,
    }
}

#[test]
fn remove_before_current_shifts_current() {
    let mut p = playlist(&["a.mp3", "b.mp3", "c.mp3"]);
    p.current = Some(2);
    p.remove_track(0);
    assert_eq!(paths(&p), vec!["b.mp3", "c.mp3"]);
    assert_eq!(p.current, Some(1));
    assert_eq!(p.tracks[1].path, "c.mp3");
}

#[test]
fn remove_current_clears_current() {
    let mut p = playlist(&["a.mp3", "b.mp3", "c.mp3"]);
    p.current = Some(1);
    p.remove_track(1);
    assert_eq!(p.current, None);
}

#[test]
fn remove_after_current_keeps_current() {
    let mut p = playlist(&["a.mp3", "b.mp3", "c.mp3"]);
    p.current = Some(0);
    p.remove_track(2);
    assert_eq!(p.current, Some(0));
    assert_eq!(paths(&p), vec!["a.mp3", "b.mp3"]);
}

#[test]
fn next_and_prev() {
    let mut p = playlist(&["a.mp3", "b.mp3", "c.mp3"]);
    assert_eq!(p.next_track(), Some(0));
    assert_eq!(p.prev_track(), None);
    p.current = Some(1);
    assert_eq!(p.next_track(), Some(2));
    assert_eq!(p.prev_track(), Some(0));
    p.current = Some(2);
    assert_eq!(p.next_track(), None);
    assert_eq!(Playlist::default().next_track(), None);
}

#[test]
fn next_then_prev_returns() {
    let mut p = playlist(&["a.mp3", "b.mp3", "c.mp3"]);
    p.current = Some(0);
    assert_eq!(p.skip_forward().as_deref(), Some("b.mp3"));
    assert_eq!(p.current, Some(1));
    assert_eq!(p.skip_back().as_deref(), Some("a.mp3"));
    assert_eq!(p.current, Some(0));
    assert_eq!(p.skip_back(), None);
    assert_eq!(p.current, Some(0));
}

#[test]
fn shuffle_keeps_current_track() {
    let names: Vec<String> = (0..40).map(|i| format!("t{}.mp3", i)).collect();
    let refs: Vec<&str> = names.iter().map(|s| s.as_str()).collect();
    let mut p = playlist(&refs);
    p.current = Some(17);
    p.shuffle();
    let i = p.current.expect("current kept");
    assert_eq!(p.tracks[i].path, "t17.mp3");
    let mut after = paths(&p);
    after.sort();
    let mut before = names.clone();
    before.sort();
    assert_eq!(after, before);
}

#[test]
fn shuffle_without_current() {
    let mut p = playlist(&["a.mp3", "b.mp3"]);
    p.shuffle();
    assert_eq!(p.current, None);
    assert_eq!(p.tracks.len(), 2);
}

#[test]
fn blacklist_wins_over_whitelist() {
    let mut p = Playlist::default();
    p.toggle_whitelist("Rock");
    let t = track("x.mp3", &["Rock", "Noise"]);
    assert!(p.genre_visible(&t));
    p.toggle_blacklist("Noise");
    assert!(!p.genre_visible(&t));
}

#[test]
fn whitelist_hides_other_genres() {
    let mut p = Playlist::default();
    let jazz = track("j.mp3", &["Jazz"]);
    let untagged = track("u.mp3", &[]);
    assert!(p.genre_visible(&jazz));
    assert!(p.genre_visible(&untagged));
    p.toggle_whitelist("Rock");
    assert!(!p.genre_visible(&jazz));
    assert!(!p.genre_visible(&untagged));
}

#[test]
fn toggles_are_mutually_exclusive() {
    let mut p = Playlist::default();
    p.toggle_blacklist("Pop");
    assert_eq!(p.genre_blacklist, vec!["Pop".to_string()]);
    p.toggle_whitelist("Pop");
    assert_eq!(p.genre_whitelist, vec!["Pop".to_string()]);
    assert!(p.genre_blacklist.is_empty());
    p.toggle_blacklist("Pop");
    assert!(p.genre_whitelist.is_empty());
    assert_eq!(p.genre_blacklist, vec!["Pop".to_string()]);
}

#[test]
fn toggle_twice_restores() {
    let mut p = Playlist::default();
    p.toggle_whitelist("Ska");
    p.toggle_whitelist("Ska");
    assert!(p.genre_whitelist.is_empty());
    assert!(p.genre_blacklist.is_empty());
    p.clear_genre_filters();
    assert!(p.genre_whitelist.is_empty());
}

#[test]
fn genre_counts_sorted_with_occurrences() {
    let mut p = Playlist::default();
    p.tracks.push(track("a.mp3", &["Rock", "Pop"]));
    p.tracks.push(track("b.mp3", &["Rock"]));
    p.tracks.push(track("c.mp3", &["Jazz", "Rock"]));
    p.tracks.push(track("d.mp3", &[]));
    p.toggle_blacklist("Rock");
    let counts = p.genre_counts();
    assert_eq!(
        counts,
        vec![("Jazz".to_string(), 1), ("Pop".to_string(), 1), ("Rock".to_string(), 3)]
    );
}

#[test]
fn genre_counts_count_repeats_and_empty() {
    let mut p = Playlist::default();
    assert!(p.genre_counts().is_empty());
    p.tracks.push(track("a.mp3", &["b", "a", "b", "B"]));
    assert_eq!(
        p.genre_counts(),
        vec![("B".to_string(), 1), ("a".to_string(), 1), ("b".to_string(), 1)]
    );
}

#[test]
fn genre_counts_count_tracks_not_entries() {
    let mut p = Playlist::default();
    p.tracks.push(track("a.mp3", &["Rock", "Rock"]));
    p.tracks.push(track("b.mp3", &["Rock", "Pop"]));
    assert_eq!(p.genre_counts(), vec![("Pop".to_string(), 1), ("Rock".to_string(), 2)]);
}

#[test]
fn visible_tracks_combine_filters() {
    let mut p = Playlist::default();
    p.tracks.push(track("one.mp3", &["Rock"]));
    p.tracks.push(track("two.mp3", &["Jazz"]));
    p.tracks.push(track("three.mp3", &["Rock"]));
    assert_eq!(p.visible_tracks("", FilterScope::TrackName), vec![0, 1, 2]);
    assert_eq!(p.visible_tracks("T", FilterScope::FileName), vec![1, 2]);
    p.toggle_whitelist("Rock");
    assert_eq!(p.visible_tracks("t", FilterScope::TrackName), vec![2]);
    assert_eq!(p.visible_tracks("", FilterScope::Artist), vec![0, 2]);
}

#[test]
fn add_tracks_keeps_supported() {
    let mut p = playlist(&["first.mp3"]);
    p.add_tracks(vec![track("a.txt", &[]), track("b.flac", &[]), track("c.wav", &[])]);
    assert_eq!(paths(&p), vec!["first.mp3", "b.flac", "c.wav"]);
}

#[test]
fn select_supported_filters_in_order() {
    let out = select_supported(vec![
        "x.jpg".to_string(),
        "y.ogg".to_string(),
        "z.M4A".to_string(),
        "w".to_string(),
    ]);
    assert_eq!(out, vec!["y.ogg".to_string(), "z.M4A".to_string()]);
}

#[test]
fn toggle_playback_from_stopped() {
    let mut p = playlist(&["a.mp3", "b.mp3"]);
    let t = p.toggle_playback(PlaybackState::Stopped);
    assert_eq!(t, Transport::Play("a.mp3".to_string()));
    assert_eq!(p.current, Some(0));
    p.current = Some(1);
    assert_eq!(p.toggle_playback(PlaybackState::Stopped), Transport::Play("b.mp3".to_string()));
    assert_eq!(p.toggle_playback(PlaybackState::Playing), Transport::TogglePause);
    assert_eq!(p.toggle_playback(PlaybackState::Paused), Transport::TogglePause);
}

#[test]
fn toggle_playback_empty_does_nothing() {
    let mut p = Playlist::default();
    assert_eq!(p.toggle_playback(PlaybackState::Stopped), Transport::Idle);
    assert_eq!(p.current, None);
}

#[test]
fn mpris_commands() {
    let mut p = playlist(&["a.mp3", "b.mp3"]);
    p.current = Some(0);
    assert_eq!(p.apply_mpris(MprisCommand::Play, PlaybackState::Paused), Transport::TogglePause);
    assert_eq!(p.apply_mpris(MprisCommand::Play, PlaybackState::Playing), Transport::Idle);
    assert_eq!(p.apply_mpris(MprisCommand::Pause, PlaybackState::Playing), Transport::TogglePause);
    assert_eq!(p.apply_mpris(MprisCommand::Pause, PlaybackState::Stopped), Transport::Idle);
    assert_eq!(p.apply_mpris(MprisCommand::Stop, PlaybackState::Playing), Transport::Stop);
    assert_eq!(p.apply_mpris(MprisCommand::Seek(-5), PlaybackState::Playing), Transport::SeekMicros(0));
    assert_eq!(
        p.apply_mpris(MprisCommand::Seek(2_500_000), PlaybackState::Playing),
        Transport::SeekMicros(2_500_000)
    );
    assert_eq!(
        p.apply_mpris(MprisCommand::Next, PlaybackState::Playing),
        Transport::Play("b.mp3".to_string())
    );
    assert_eq!(p.current, Some(1));
    assert_eq!(p.apply_mpris(MprisCommand::Next, PlaybackState::Playing), Transport::Idle);
    assert_eq!(
        p.apply_mpris(MprisCommand::Previous, PlaybackState::Playing),
        Transport::Play("a.mp3".to_string())
    );
    assert_eq!(
        p.apply_mpris(MprisCommand::PlayPause, PlaybackState::Stopped),
        Transport::Play("a.mp3".to_string())
    );
}

#[test]
fn merge_loaded_skips_known_ids() {
    let mut p = Playlist::default();
    p.tracks.push(with_id("old.mp3", 5));
    let records = vec![record(0, "new.mp3"), record(0, "dup.mp3"), record(0, "none.mp3"), record(0, "x.mp3")];
    let ids = vec![Some(7), Some(5), None];
    p.merge_loaded(&records, &ids);
    assert_eq!(paths(&p), vec!["old.mp3", "new.mp3"]);
    assert_eq!(p.tracks[1].id, 7);
    assert_eq!(p.current, Some(0));
}

#[test]
fn merge_loaded_same_id_twice_added_once() {
    let mut p = Playlist::default();
    let records = vec![record(0, "a.mp3"), record(0, "b.mp3")];
    p.merge_loaded(&records, &vec![Some(9), Some(9)]);
    assert_eq!(paths(&p), vec!["a.mp3"]);
    assert_eq!(p.current, Some(0));
}

#[test]
fn resume_track_by_id() {
    let mut p = Playlist::default();
    p.tracks.push(with_id("a.mp3", 1));
    p.tracks.push(with_id("b.mp3", 2));
    p.tracks.push(with_id("c.mp3", 2));
    assert!(p.resume_track(2));
    assert_eq!(p.current, Some(1));
    assert!(!p.resume_track(9));
    assert_eq!(p.current, Some(1));
    assert_eq!(p.position_of_id(1), Some(0));
}

#[test]
fn play_index_and_clear() {
    let mut p = playlist(&["a.mp3", "b.mp3"]);
    assert_eq!(p.play_index(1), "b.mp3");
    assert_eq!(p.current, Some(1));
    p.clear_tracks();
    assert!(p.tracks.is_empty());
    assert_eq!(p.current, None);
}

#[test]
fn removing_the_current_track_stops_playback() {
    let mut p = playlist(&["a.mp3", "b.mp3", "c.mp3"]);
    p.tracks[1].id = 7;
    p.current = Some(1);
    assert_eq!(p.remove_requested(1), (7, true));
    assert_eq!(p.current, None);
    assert_eq!(paths(&p), vec!["a.mp3", "c.mp3"]);
}

#[test]
fn removing_another_track_keeps_playing() {
    let mut p = playlist(&["a.mp3", "b.mp3", "c.mp3"]);
    p.tracks[0].id = 3;
    p.current = Some(2);
    assert_eq!(p.remove_requested(0), (3, false));
    assert_eq!(p.current, Some(1));
    let mut q = playlist(&["a.mp3"]);
    assert_eq!(q.remove_requested(0).1, false);
}
