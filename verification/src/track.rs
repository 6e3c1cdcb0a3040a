//! Tracks: what the player knows of one audio file, how it is named, filtered
//! and stored.
use vstd::prelude::*;
use crate::text::{
    chars_of, copy_text, decimal2, lowercase_of, occurs_in, push_char, push_chars, push_decimal2,
    same_text,
    split_commas, split_on_commas, text_contains, to_lowercase, trim_text, trimmed,
};

verus! {

// ---------------------------------------------------------------------------
// Paths

/// What `Path::file_name` gives, as text, for a path with these characters:
/// its final component, or `None` when there is none or it is `..` (on the
/// target the library is built for).
pub uninterp spec fn path_file_name(path: Seq<char>) -> Option<Seq<char>>;

/// `Path::file_name` of `path`, as a string. The contract only names the
/// result; splitting a path into components is left to std.
#[verifier::external_body]
fn file_name(path: &str) -> (r: Option<String>)
    ensures
        r matches Some(s) ==> path_file_name(path@) == Some(s@),
        r is None ==> path_file_name(path@) is None,
{
    std::path::Path::new(path).file_name().and_then(|s| s.to_str()).map(|s| s.to_string())
}

/// Where a file name splits into stem and extension: at its last dot, unless
/// that dot is its first character (a dot file) or it has no dot.
pub open spec fn split_point(n: Seq<char>) -> Option<int>
    decreases n.len(),
{
    if n.len() == 0 {
        None
    } else if n.last() == '.' {
        if n.len() > 1 {
            Some(n.len() - 1)
        } else {
            None
        }
    } else {
        split_point(n.drop_last())
    }
}

/// The stem of a file name: before the split point, else the whole name.
pub open spec fn stem_of(n: Seq<char>) -> Seq<char> {
    match split_point(n) {
        Some(i) => n.take(i),
        None => n,
    }
}

/// The extension of a file name: after the split point, if there is one.
pub open spec fn extension_of(n: Seq<char>) -> Option<Seq<char>> {
    match split_point(n) {
        Some(i) => Some(n.skip(i + 1)),
        None => None,
    }
}

/// The stem of the path's file name, as `Path::file_stem` documents it.
pub open spec fn path_stem(path: Seq<char>) -> Option<Seq<char>> {
    match path_file_name(path) {
        Some(n) => Some(stem_of(n)),
        None => None,
    }
}

/// The extension of the path's file name, as `Path::extension` documents it.
pub open spec fn path_extension(path: Seq<char>) -> Option<Seq<char>> {
    match path_file_name(path) {
        Some(n) => extension_of(n),
        None => None,
    }
}

proof fn lemma_split_point_take(n: Seq<char>, k: int)
    requires
        0 <= k <= n.len(),
        forall|j: int| k <= j < n.len() ==> n[j] != '.',
    ensures
        split_point(n) == split_point(n.take(k)),
    decreases n.len() - k,
{
    if k < n.len() {
        assert(n.last() != '.');
        lemma_split_point_take(n.drop_last(), k);
        assert(n.drop_last().take(k) =~= n.take(k));
    } else {
        assert(n.take(k) =~= n);
    }
}

/// The split point of a file name (see `split_point`).
fn find_split(cs: &Vec<char>) -> (r: Option<usize>)
    ensures
        split_point(cs@) matches Some(i) ==> 0 < i < cs.len(),
        match split_point(cs@) {
            Some(i) => r == Some(i as usize),
            None => r is None,
        },
{
    let mut k: usize = cs.len();
    while k > 0 && cs[k - 1] != '.'
        invariant
            k <= cs.len(),
            forall|j: int| k <= j < cs.len() ==> cs@[j] != '.',
        decreases k,
    {
        k -= 1;
    }
    proof {
        lemma_split_point_take(cs@, k as int);
    }
    if k > 1 {
        assert(cs@.take(k as int).last() == '.');
        assert(split_point(cs@) == Some(k - 1));
        Some(k - 1)
    } else {
        if k == 1 {
            assert(cs@.take(1).last() == '.');
        } else {
            assert(cs@.take(0).len() == 0);
        }
        None
    }
}

/// The stem of the file name of `path` (`Path::file_stem`).
fn file_stem(path: &str) -> (r: Option<String>)
    ensures
        r matches Some(s) ==> path_stem(path@) == Some(s@),
        r is None ==> path_stem(path@) is None,
{
    match file_name(path) {
        None => None,
        Some(n) => {
            let cs = chars_of(n.as_str());
            match find_split(&cs) {
                Some(i) => {
                    let mut s = String::new();
                    push_chars(&mut s, &cs, 0, i);
                    assert(s@ =~= cs@.take(i as int));
                    assert(path_file_name(path@) == Some(n@));
                    assert(stem_of(n@) == n@.take(i as int));
                    Some(s)
                },
                None => {
                    assert(path_file_name(path@) == Some(n@));
                    assert(stem_of(n@) == n@);
                    Some(n)
                },
            }
        },
    }
}

/// The extension of the file name of `path` (`Path::extension`).
fn file_extension(path: &str) -> (r: Option<String>)
    ensures
        r matches Some(s) ==> path_extension(path@) == Some(s@),
        r is None ==> path_extension(path@) is None,
{
    match file_name(path) {
        None => None,
        Some(n) => {
            let cs = chars_of(n.as_str());
            match find_split(&cs) {
                Some(i) => {
                    let mut s = String::new();
                    push_chars(&mut s, &cs, i + 1, cs.len());
                    assert(s@ =~= cs@.skip(i + 1));
                    assert(path_file_name(path@) == Some(n@));
                    Some(s)
                },
                None => None,
            }
        },
    }
}

/// The lowercase extensions that the decoders handle.
pub open spec fn supported_extension(e: Seq<char>) -> bool {
    ||| e == "mp3"@
    ||| e == "ogg"@
    ||| e == "opus"@
    ||| e == "flac"@
    ||| e == "wav"@
    ||| e == "m4a"@
    ||| e == "aac"@
    ||| e == "aiff"@
    ||| e == "alac"@
    ||| e == "mp4"@
    ||| e == "webm"@
    ||| e == "mkv"@
}

/// A file at this path can be decoded: its extension, lowercased, is one of
/// the supported ones.
pub open spec fn is_supported_path(path: Seq<char>) -> bool {
    match path_extension(path) {
        Some(e) => supported_extension(lowercase_of(e)),
        None => false,
    }
}

/// Returns true if the file extension is one the decoders can handle.
pub fn is_supported_format(path: &str) -> (r: bool)
    ensures
        r == is_supported_path(path@),
{
    match file_extension(path) {
        None => false,
        Some(ext) => {
            let e = to_lowercase(ext.as_str());
            let s = e.as_str();
            same_text(s, "mp3") || same_text(s, "ogg") || same_text(s, "opus") || same_text(
                s,
                "flac",
            ) || same_text(s, "wav") || same_text(s, "m4a") || same_text(s, "aac")
                || same_text(s, "aiff") || same_text(s, "alac") || same_text(s, "mp4")
                || same_text(s, "webm") || same_text(s, "mkv")
        },
    }
}

/// The file at this path goes through the dedicated Opus decoder: it has an
/// extension, and that extension, lowercased, is `opus`.
pub open spec fn is_opus_path(path: Seq<char>) -> bool {
    match path_extension(path) {
        Some(e) => lowercase_of(e) == "opus"@,
        None => false,
    }
}

/// Whether the file at `path` is decoded by the Opus decoder rather than the
/// generic one.
pub fn uses_opus_decoder(path: &str) -> (r: bool)
    ensures
        r == is_opus_path(path@),
{
    match file_extension(path) {
        Some(ext) => {
            let e = to_lowercase(ext.as_str());
            same_text(e.as_str(), "opus")
        },
        None => false,
    }
}

// ---------------------------------------------------------------------------
// Filter scope

/// Which part of a track the text filter is matched against.
#[derive(Clone, Copy, PartialEq, Eq, Debug, Structural)]
pub enum FilterScope {
    /// The tag title, falling back to the file name.
    TrackName,
    Artist,
    /// The raw file name, ignoring tags.
    FileName,
}

impl Default for FilterScope {
    fn default() -> (s: Self)
        ensures
            s == FilterScope::TrackName,
    {
        FilterScope::TrackName
    }
}

// ---------------------------------------------------------------------------
// Tracks

/// A track of the playlist.
#[derive(Clone, Debug)]
pub struct Track {
    /// Library identifier (0 until the library has stored the track).
    pub id: u64,
    pub path: String,
    /// File name without extension (fallback display).
    pub name: String,
    /// Title from the tags.
    pub title: Option<String>,
    pub artist: Option<String>,
    pub genres: Vec<String>,
    /// Total duration in whole seconds, once known.
    pub duration_secs: Option<u64>,
}

/// The contents of a track, as text.
pub struct TrackView {
    pub id: u64,
    pub path: Seq<char>,
    pub name: Seq<char>,
    pub title: Option<Seq<char>>,
    pub artist: Option<Seq<char>>,
    pub genres: Seq<Seq<char>>,
    pub duration_secs: Option<u64>,
}

/// The text of an optional string.
pub open spec fn opt_text(o: Option<String>) -> Option<Seq<char>> {
    match o {
        Some(s) => Some(s@),
        None => None,
    }
}

/// The texts of a list of strings.
pub open spec fn texts(v: Seq<String>) -> Seq<Seq<char>> {
    v.map_values(|s: String| s@)
}

impl View for Track {
    type V = TrackView;

    open spec fn view(&self) -> TrackView {
        TrackView {
            id: self.id,
            path: self.path@,
            name: self.name@,
            title: opt_text(self.title),
            artist: opt_text(self.artist),
            genres: texts(self.genres@),
            duration_secs: self.duration_secs,
        }
    }
}

/// The contents of a sequence of tracks.
pub open spec fn track_views(s: Seq<Track>) -> Seq<TrackView> {
    s.map_values(|t: Track| t@)
}

/// The contents of a sequence of records.
pub open spec fn record_views(s: Seq<TrackRecord>) -> Seq<TrackView> {
    s.map_values(|r: TrackRecord| r@)
}

/// The name a track is shown under: its tag title if present, else its file
/// name.
pub open spec fn shown_name(t: TrackView) -> Seq<char> {
    match t.title {
        Some(title) => title,
        None => t.name,
    }
}

/// A track passes the text filter `query` in `scope`: the query is empty, or
/// its lowercase form occurs in the lowercase form of the field the scope
/// names (a track without artist never passes an artist filter).
pub open spec fn passes_filter(t: TrackView, query: Seq<char>, scope: FilterScope) -> bool {
    if query.len() == 0 {
        true
    } else {
        let q = lowercase_of(query);
        match scope {
            FilterScope::TrackName => occurs_in(q, lowercase_of(shown_name(t))),
            FilterScope::Artist => match t.artist {
                Some(a) => occurs_in(q, lowercase_of(a)),
                None => false,
            },
            FilterScope::FileName => occurs_in(q, lowercase_of(t.name)),
        }
    }
}

/// The text `format_duration` shows for a length of `secs` seconds:
/// zero-padded minutes, a colon, zero-padded seconds.
pub open spec fn duration_text(secs: nat) -> Seq<char> {
    decimal2(secs / 60) + seq![':'] + decimal2(secs % 60)
}

/// A copy of a list of strings.
pub fn copy_texts(v: &Vec<String>) -> (out: Vec<String>)
    ensures
        out@ == v@,
{
    let mut out: Vec<String> = Vec::new();
    let mut i: usize = 0;
    while i < v.len()
        invariant
            i <= v.len(),
            out@ == v@.take(i as int),
        decreases v.len() - i,
    {
        out.push(v[i].clone());
        i += 1;
        assert(out@ =~= v@.take(i as int));
    }
    assert(v@.take(v.len() as int) =~= v@);
    out
}

/// A copy of an optional string.
pub fn copy_opt(o: &Option<String>) -> (out: Option<String>)
    ensures
        out == *o,
{
    match o {
        Some(s) => Some(s.clone()),
        None => None,
    }
}

/// The texts of a list of strings with white space trimmed from both ends of
/// each.
pub open spec fn trimmed_all(v: Seq<Seq<char>>) -> Seq<Seq<char>> {
    v.map_values(|s: Seq<char>| trimmed(s))
}

/// The genres that tag values give: each value split on commas, each piece
/// trimmed, value after value.
pub open spec fn genre_entries(values: Seq<Seq<char>>) -> Seq<Seq<char>>
    decreases values.len(),
{
    if values.len() == 0 {
        Seq::<Seq<char>>::empty()
    } else {
        genre_entries(values.drop_last()) + trimmed_all(split_commas(values.last()))
    }
}

/// The genres one tag value gives: its comma-separated pieces, trimmed.
fn genre_pieces(value: &str) -> (out: Vec<String>)
    ensures
        texts(out@) == trimmed_all(split_commas(value@)),
{
    let parts = split_on_commas(value);
    let ghost want = trimmed_all(split_commas(value@));
    let mut out: Vec<String> = Vec::new();
    let mut i: usize = 0;
    while i < parts.len()
        invariant
            i <= parts.len(),
            parts@.len() == split_commas(value@).len(),
            forall|k: int| 0 <= k < parts@.len() ==> #[trigger] parts@[k]@ == split_commas(value@)[k],
            want == trimmed_all(split_commas(value@)),
            out@.len() == i,
            forall|k: int| 0 <= k < i ==> #[trigger] out@[k]@ == want[k],
        decreases parts.len() - i,
    {
        let g = trim_text(parts[i].as_str());
        proof {
            assert(want[i as int] == trimmed(split_commas(value@)[i as int]));
        }
        let ghost before = out@;
        out.push(g);
        proof {
            assert forall|k: int| 0 <= k < i + 1 implies #[trigger] out@[k]@ == want[k] by {
                if k < i {
                    assert(out@[k] == before[k]);
                }
            }
        }
        i += 1;
    }
    assert(texts(out@) =~= want);
    out
}

impl Track {
    /// A track for the file at `path`, given the title, artist and genres read
    /// from its tags. The display name is the file stem (or `Unknown`), each
    /// genre is trimmed; the track has no library id and no known duration
    /// yet.
    pub fn new(
        path: String,
        title: Option<String>,
        artist: Option<String>,
        genres: Vec<String>,
    ) -> (t: Track)
        ensures
            t@.id == 0,
            t@.path == path@,
            t@.name == (match path_stem(path@) {
                Some(stem) => stem,
                None => "Unknown"@,
            }),
            t@.title == opt_text(title),
            t@.artist == opt_text(artist),
            t@.genres == genre_entries(texts(genres@)),
            t@.duration_secs is None,
    {
        let name = match file_stem(path.as_str()) {
            Some(stem) => stem,
            None => copy_text("Unknown"),
        };
        let mut all: Vec<String> = Vec::new();
        let mut i: usize = 0;
        proof {
            assert(texts(genres@).take(0) =~= Seq::<Seq<char>>::empty());
            assert(texts(all@) =~= Seq::<Seq<char>>::empty());
        }
        while i < genres.len()
            invariant
                i <= genres.len(),
                texts(all@) == genre_entries(texts(genres@).take(i as int)),
            decreases genres.len() - i,
        {
            let mut pieces = genre_pieces(genres[i].as_str());
            let ghost before = all@;
            let ghost more = pieces@;
            all.append(&mut pieces);
            proof {
                let tg = texts(genres@);
                assert(tg.take(i + 1).drop_last() =~= tg.take(i as int));
                assert(tg.take(i + 1).last() == genres@[i as int]@);
                assert(texts(all@) =~= texts(before) + texts(more));
            }
            i += 1;
        }
        assert(texts(genres@).take(genres.len() as int) =~= texts(genres@));
        Track { id: 0, path, name, title, artist, genres: all, duration_secs: None }
    }

    /// What to show in the playlist row: tag title if present, else the file
    /// name.
    pub fn display_name(&self) -> (s: &str)
        ensures
            s@ == shown_name(self@),
    {
        match &self.title {
            Some(t) => t.as_str(),
            None => self.name.as_str(),
        }
    }

    /// A length in seconds as `MM:SS` (minutes are not capped at two digits).
    pub fn format_duration(secs: u64) -> (s: String)
        ensures
            s@ == duration_text(secs as nat),
    {
        let mut s = String::new();
        push_decimal2(&mut s, secs / 60);
        push_char(&mut s, ':');
        push_decimal2(&mut s, secs % 60);
        s
    }

    /// Whether the track passes the text filter `query` in `scope`
    /// (case-insensitive substring match; the empty query passes all).
    pub fn matches_filter(&self, query: &str, scope: FilterScope) -> (r: bool)
        ensures
            r == passes_filter(self@, query@, scope),
    {
        let qc = chars_of(query);
        if qc.len() == 0 {
            return true;
        }
        let q = to_lowercase(query);
        match scope {
            FilterScope::TrackName => {
                let hay = to_lowercase(self.display_name());
                text_contains(hay.as_str(), q.as_str())
            },
            FilterScope::Artist => match &self.artist {
                Some(a) => {
                    let hay = to_lowercase(a.as_str());
                    text_contains(hay.as_str(), q.as_str())
                },
                None => false,
            },
            FilterScope::FileName => {
                let hay = to_lowercase(self.name.as_str());
                text_contains(hay.as_str(), q.as_str())
            },
        }
    }

    /// An independent copy of the track.
    pub fn duplicate(&self) -> (t: Track)
        ensures
            t@ == self@,
    {
        let genres = copy_texts(&self.genres);
        Track {
            id: self.id,
            path: self.path.clone(),
            name: self.name.clone(),
            title: copy_opt(&self.title),
            artist: copy_opt(&self.artist),
            genres,
            duration_secs: self.duration_secs,
        }
    }

    /// The track a library record describes.
    pub fn from_record(record: TrackRecord) -> (t: Track)
        ensures
            t@ == record@,
    {
        Track {
            id: record.id,
            path: record.path,
            name: record.name,
            title: record.title,
            artist: record.artist,
            genres: record.genres,
            duration_secs: record.duration_secs,
        }
    }

    /// The library record of this track.
    pub fn to_record(&self) -> (r: TrackRecord)
        ensures
            r@ == self@,
    {
        let t = self.duplicate();
        TrackRecord {
            id: t.id,
            path: t.path,
            name: t.name,
            title: t.title,
            artist: t.artist,
            genres: t.genres,
            duration_secs: t.duration_secs,
        }
    }
}

/// A track as stored in the library database.
#[derive(Clone, Debug)]
pub struct TrackRecord {
    pub id: u64,
    pub path: String,
    pub name: String,
    pub title: Option<String>,
    pub artist: Option<String>,
    pub genres: Vec<String>,
    /// Duration in whole seconds, once known.
    pub duration_secs: Option<u64>,
}

impl View for TrackRecord {
    type V = TrackView;

    open spec fn view(&self) -> TrackView {
        TrackView {
            id: self.id,
            path: self.path@,
            name: self.name@,
            title: opt_text(self.title),
            artist: opt_text(self.artist),
            genres: texts(self.genres@),
            duration_secs: self.duration_secs,
        }
    }
}

impl TrackRecord {
    /// An independent copy of the record.
    pub fn duplicate(&self) -> (r: TrackRecord)
        ensures
            r@ == self@,
    {
        TrackRecord {
            id: self.id,
            path: self.path.clone(),
            name: self.name.clone(),
            title: copy_opt(&self.title),
            artist: copy_opt(&self.artist),
            genres: copy_texts(&self.genres),
            duration_secs: self.duration_secs,
        }
    }
}

} // verus!
