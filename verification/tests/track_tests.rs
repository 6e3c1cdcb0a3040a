use valser::text::{compare_chars, text_contains, trim_text, TextOrder};
use valser::track::{is_supported_format, uses_opus_decoder, FilterScope, Track, TrackRecord};

fn track(path: &str, title: Option<&str>, artist: Option<&str>, genres: &[&str]) -> Track {
    Track::new(
        path.to_string(),
        title.map(|s| s.to_string()),
        artist.map(|s| s.to_string()),
        genres.iter().map(|g| g.to_string()).collect(),
    )
}

#[test]
fn format_duration_pads_minutes_and_seconds() {
    assert_eq!(Track::format_duration(0), "00:00");
    assert_eq!(Track::format_duration(185), "03:05");
    assert_eq!(Track::format_duration(59), "00:59");
    assert_eq!(Track::format_duration(600), "10:00");
}

#[test]
fn format_duration_does_not_cap_minutes() {
    assert_eq!(Track::format_duration(3725), "62:05");
    assert_eq!(Track::format_duration(6000 * 60 + 1), "6000:01");
}

#[test]
fn new_track_takes_name_from_file_stem() {
    let t = track("/music/album/01 Intro.mp3", None, None, &[]);
    assert_eq!(t.name, "01 Intro");
    assert_eq!(t.path, "/music/album/01 Intro.mp3");
    assert_eq!(t.id, 0);
    assert_eq!(t.duration_secs, None);
}

#[test]
fn new_track_stem_keeps_inner_dots() {
    let t = track("a/b.c.flac", None, None, &[]);
    assert_eq!(t.name, "b.c");
}

#[test]
fn new_track_without_file_name_is_unknown() {
    let t = track("/", None, None, &[]);
    assert_eq!(t.name, "Unknown");
}

#[test]
fn new_track_trims_genres() {
    let t = track("x.ogg", None, None, &["  Rock ", "\tJazz\n", "Pop"]);
    assert_eq!(t.genres, vec!["Rock".to_string(), "Jazz".to_string(), "Pop".to_string()]);
}

#[test]
fn display_name_prefers_title() {
    let a = track("song.mp3", Some("Real Title"), None, &[]);
    assert_eq!(a.display_name(), "Real Title");
    let b = track("song.mp3", None, None, &[]);
    assert_eq!(b.display_name(), "song");
}

#[test]
fn empty_filter_matches_everything() {
    let t = track("song.mp3", None, None, &[]);
    assert!(t.matches_filter("", FilterScope::TrackName));
    assert!(t.matches_filter("", FilterScope::Artist));
    assert!(t.matches_filter("", FilterScope::FileName));
}

#[test]
fn filter_is_case_insensitive_substring() {
    let t = track("file_name.mp3", Some("The Beatles Song"), Some("Some Artist"), &[]);
    assert!(t.matches_filter("BEATLES", FilterScope::TrackName));
    assert!(!t.matches_filter("file", FilterScope::TrackName));
    assert!(t.matches_filter("artist", FilterScope::Artist));
    assert!(!t.matches_filter("beatles", FilterScope::Artist));
    assert!(t.matches_filter("NAME", FilterScope::FileName));
    assert!(!t.matches_filter("beatles", FilterScope::FileName));
}

#[test]
fn artist_filter_fails_without_artist() {
    let t = track("x.mp3", Some("Title"), None, &[]);
    assert!(!t.matches_filter("a", FilterScope::Artist));
}

#[test]
fn supported_formats_by_extension() {
    assert!(is_supported_format("a/b/song.mp3"));
    assert!(is_supported_format("song.FLAC"));
    assert!(is_supported_format("clip.mkv"));
    assert!(is_supported_format("x.Opus"));
    assert!(!is_supported_format("notes.txt"));
    assert!(!is_supported_format("no_extension"));
    assert!(!is_supported_format("archive.mp3.zip"));
}

#[test]
fn opus_decoder_choice() {
    assert!(uses_opus_decoder("a/b.opus"));
    assert!(uses_opus_decoder("B.OPUS"));
    assert!(!uses_opus_decoder("b.ogg"));
    assert!(!uses_opus_decoder("opus"));
}

#[test]
fn record_round_trip() {
    let mut t = track("x/y.wav", Some("T"), Some("A"), &["G"]);
    t.id = 42;
    t.duration_secs = Some(90);
    let r = t.to_record();
    assert_eq!(r.id, 42);
    let back = Track::from_record(r);
    assert_eq!(back.id, 42);
    assert_eq!(back.path, "x/y.wav");
    assert_eq!(back.name, "y");
    assert_eq!(back.title.as_deref(), Some("T"));
    assert_eq!(back.artist.as_deref(), Some("A"));
    assert_eq!(back.genres, vec!["G".to_string()]);
    assert_eq!(back.duration_secs, Some(90));
}

#[test]
fn record_duplicate_is_equal() {
    let r = TrackRecord {
        id: 3,
        path: "p".to_string(),
        name: "n".to_string(),
        title: None,
        artist: Some("a".to_string()),
        genres: vec!["g".to_string()],
        duration_secs: None,
    };
    let d = r.duplicate();
    assert_eq!(d.id, 3);
    assert_eq!(d.path, "p");
    assert_eq!(d.artist.as_deref(), Some("a"));
    assert_eq!(d.genres, vec!["g".to_string()]);
}

#[test]
fn text_helpers() {
    assert_eq!(trim_text("  hi there \n"), "hi there");
    assert_eq!(trim_text("   "), "");
    assert_eq!(trim_text("x"), "x");
    assert!(text_contains("hello world", "lo w"));
    assert!(text_contains("abc", ""));
    assert!(!text_contains("abc", "abcd"));
    assert!(!text_contains("abc", "ac"));
}

#[test]
fn text_order_is_by_code_point() {
    let c = |s: &str| s.chars().collect::<Vec<char>>();
    assert_eq!(compare_chars(&c("Jazz"), &c("Rock")), TextOrder::Before);
    assert_eq!(compare_chars(&c("Rock"), &c("Rock")), TextOrder::Same);
    assert_eq!(compare_chars(&c("Rock"), &c("Ro")), TextOrder::After);
    assert_eq!(compare_chars(&c("Z"), &c("a")), TextOrder::Before);
    assert_eq!(compare_chars(&c(""), &c("a")), TextOrder::Before);
}

#[test]
fn default_scope_is_track_name() {
    assert_eq!(FilterScope::default(), FilterScope::TrackName);
}

#[test]
fn dot_files_and_trailing_dots() {
    assert_eq!(track("dir/.bashrc", None, None, &[]).name, ".bashrc");
    assert_eq!(track("dir/song.", None, None, &[]).name, "song");
    assert_eq!(track("dir/sub/", None, None, &[]).name, "sub");
    assert!(!is_supported_format("dir/.mp3"));
    assert!(!is_supported_format("song."));
    assert!(is_supported_format("dir.x/y.aac"));
    assert!(!is_supported_format("dir.mp3/readme"));
}

#[test]
fn genres_split_on_commas() {
    let t = track("x.mp3", None, None, &["Rock, Pop", " Jazz "]);
    assert_eq!(t.genres, vec!["Rock".to_string(), "Pop".to_string(), "Jazz".to_string()]);
    let u = track("y.mp3", None, None, &["a,,b"]);
    assert_eq!(u.genres, vec!["a".to_string(), "".to_string(), "b".to_string()]);
}

#[test]
fn opus_decoder_needs_an_extension() {
    assert!(!uses_opus_decoder("music/opus_track"));
    assert!(!uses_opus_decoder(""));
    assert!(!uses_opus_decoder(".opus"));
}
