//! The playlist downloader's state and the computations between its network
//! and file steps: request addresses, songs from track records, what is left
//! to download, download addresses and file names.
use vstd::prelude::*;

use crate::music::{
    diff_hashmap, index_by_id, indexed, symmetric_difference, Music, MusicMap, MusicView,
};
use crate::sanitize::{sanitized, sy_re};
use crate::text::{
    ascii_lower, chars_of, decimal, decimal_string, join_strings, joined, push_str,
    string_of, to_ascii_lower,
};

verus! {

#[verifier::external_type_specification]
#[verifier::external_body]
pub struct ExJsonValue(serde_json::Value);

/// The state of one playlist download.
pub struct MusicDownload {
    pub playlist_pic_url: String,
    pub palylist_id: String,
    pub playlist_name: String,
    pub save_path: String,
    pub music_info_path: String,
    /// The settings read from the option file.
    pub option: serde_json::Value,
    /// The songs still to download.
    pub require_music: MusicMap,
    /// All songs of the playlist.
    pub all_music: MusicMap,
    /// The songs already downloaded.
    pub already_music: MusicMap,
}

/// The file that records the downloaded songs of playlist `id`.
pub open spec fn info_file(music_path: Seq<char>, id: Seq<char>) -> Seq<char> {
    music_path + id + ".json"@
}

/// The path of the file that records the downloaded songs of playlist `id`.
pub fn info_file_path(music_path: &str, id: &str) -> (p: String)
    ensures
        p@ == info_file(music_path@, id@),
{
    let mut p = String::new();
    push_str(&mut p, music_path);
    push_str(&mut p, id);
    push_str(&mut p, ".json");
    assert(p@ =~= info_file(music_path@, id@));
    p
}

impl MusicDownload {
    /// A download of playlist `id` into `music_path`, with nothing fetched yet.
    pub fn new(id: String, option: serde_json::Value, music_path: String) -> (d: MusicDownload)
        ensures
            d.palylist_id@ == id@,
            d.save_path@ == music_path@,
            d.music_info_path@ == info_file(music_path@, id@),
            d.option == option,
            d.playlist_pic_url@.len() == 0,
            d.playlist_name@.len() == 0,
            d.require_music@ == Map::<Seq<char>, MusicView>::empty(),
            d.all_music@ == Map::<Seq<char>, MusicView>::empty(),
            d.already_music@ == Map::<Seq<char>, MusicView>::empty(),
    {
        let info = info_file_path(music_path.as_str(), id.as_str());
        MusicDownload {
            playlist_pic_url: String::new(),
            palylist_id: id,
            playlist_name: String::new(),
            save_path: music_path,
            music_info_path: info,
            option,
            require_music: MusicMap::new(),
            all_music: MusicMap::new(),
            already_music: MusicMap::new(),
        }
    }
}

// ---------------------------------------------------------------------------
// The option file
// ---------------------------------------------------------------------------

/// Whether `serde_json::from_str` parses the text as a JSON value.
pub uninterp spec fn json_parses(text: Seq<char>) -> bool;

/// The string that the JSON value parsed from `text` holds under `key`, as
/// indexing the value by `key` and then `Value::as_str` give it: `None` when
/// the value is no object, lacks the key, or holds something else there.
pub uninterp spec fn settings_string(text: Seq<char>, key: Seq<char>) -> Option<Seq<char>>;

/// Calls `serde_json::from_str` for a `Value`: the parsed settings, when the
/// text is JSON. Parsing depends on the text alone.
#[verifier::external_body]
fn parse_settings(text: &str) -> (r: Option<serde_json::Value>)
    ensures
        r is Some == json_parses(text@),
{
    serde_json::from_str::<serde_json::Value>(text).ok()
}

/// Calls `serde_json::from_str` for a `Value`, indexes the value by `key`
/// and calls `Value::as_str`: the string held under `key`, when the text is
/// JSON and holds one there.
#[verifier::external_body]
fn settings_string_at(text: &str, key: &str) -> (r: Option<String>)
    ensures
        r is Some == (json_parses(text@) && settings_string(text@, key@) is Some),
        r matches Some(s) ==> s@ == settings_string(text@, key@)->0,
{
    match serde_json::from_str::<serde_json::Value>(text) {
        Ok(v) => v[key].as_str().map(|s| s.to_string()),
        Err(_) => None,
    }
}

impl MusicDownload {
    /// A download of playlist `id` set up from the text of the option file:
    /// the songs go under the file's `music_path`. `None` when the text is not
    /// JSON or holds no string `music_path`.
    pub fn from_settings(id: String, settings_text: &str) -> (d: Option<MusicDownload>)
        ensures
            d is Some == (json_parses(settings_text@) && settings_string(
                settings_text@,
                "music_path"@,
            ) is Some),
            d matches Some(d) ==> {
                &&& d.palylist_id@ == id@
                &&& d.save_path@ == settings_string(settings_text@, "music_path"@)->0
                &&& d.music_info_path@ == info_file(d.save_path@, id@)
                &&& d.playlist_name@.len() == 0
                &&& d.playlist_pic_url@.len() == 0
                &&& d.all_music@ == Map::<Seq<char>, MusicView>::empty()
                &&& d.already_music@ == Map::<Seq<char>, MusicView>::empty()
                &&& d.require_music@ == Map::<Seq<char>, MusicView>::empty()
            },
    {
        let option = match parse_settings(settings_text) {
            Some(v) => v,
            None => {
                return None;
            },
        };
        let mut key = String::new();
        push_str(&mut key, "music_path");
        assert(key@ =~= "music_path"@);
        match settings_string_at(settings_text, key.as_str()) {
            Some(music_path) => Some(MusicDownload::new(id, option, music_path)),
            None => None,
        }
    }
}

// ---------------------------------------------------------------------------
// Request addresses
// ---------------------------------------------------------------------------

/// The address that gives the details of playlist `id`.
pub open spec fn detail_url(id: Seq<char>) -> Seq<char> {
    "http://localhost:3000/playlist/detail?id="@ + id
}

/// The address that gives the details of playlist `id`.
pub fn playlist_detail_url(id: &str) -> (u: String)
    ensures
        u@ == detail_url(id@),
{
    let mut u = String::new();
    push_str(&mut u, "http://localhost:3000/playlist/detail?id=");
    push_str(&mut u, id);
    assert(u@ =~= detail_url(id@));
    u
}

/// The address that gives the fifty tracks of playlist `id` from `offset` on.
pub open spec fn page_url(id: Seq<char>, offset: int) -> Seq<char> {
    "http://localhost:3000/playlist/track/all?id="@ + id + "&limit=50&offset="@ + decimal(offset)
}

/// The address that gives the fifty tracks of playlist `id` from `offset` on.
pub fn track_page_url(id: &str, offset: i64) -> (u: String)
    ensures
        u@ == page_url(id@, offset as int),
{
    let mut u = String::new();
    push_str(&mut u, "http://localhost:3000/playlist/track/all?id=");
    push_str(&mut u, id);
    push_str(&mut u, "&limit=50&offset=");
    let n = decimal_string(offset);
    push_str(&mut u, n.as_str());
    assert(u@ =~= page_url(id@, offset as int));
    u
}

/// How many pages of fifty tracks are asked for: one for each of
/// `0 ..= track_count / 50`, the division rounding toward zero.
pub open spec fn page_count(track_count: int) -> int {
    if track_count <= -50 {
        0
    } else if track_count < 0 {
        1
    } else {
        track_count / 50 + 1
    }
}

/// The offsets of the pages of fifty tracks that cover a playlist of
/// `track_count` tracks: `0, 50, 100, ...` for each of `0 ..= track_count / 50`.
pub fn page_offsets(track_count: i64) -> (offsets: Vec<i64>)
    ensures
        offsets@.len() == page_count(track_count as int),
        forall|i: int| 0 <= i < offsets@.len() ==> #[trigger] offsets@[i] == 50 * i,
{
    let mut offsets: Vec<i64> = Vec::new();
    if track_count <= -50 {
        return offsets;
    }
    let last: i64 = if track_count < 0 {
        0
    } else {
        track_count / 50
    };
    let mut i: i64 = 0;
    while i <= last
        invariant
            0 <= i <= last + 1,
            last == (if track_count < 0 {
                0
            } else {
                track_count / 50
            }),
            offsets@.len() == i,
            forall|k: int| 0 <= k < i ==> #[trigger] offsets@[k] == 50 * k,
        decreases last + 1 - i,
    {
        assert(50 * i <= 50 * last);
        offsets.push(50 * i);
        i = i + 1;
    }
    offsets
}

/// The address that gives the download addresses of the songs `ids` at lossless quality.
pub open spec fn song_urls_request(ids: Seq<Seq<char>>) -> Seq<char> {
    "http://localhost:3000/song/url/v1?id="@ + joined(ids, ","@) + "&level=lossless"@
}

/// The address that gives the lyric of song `id`.
pub open spec fn lyric_request(id: Seq<char>) -> Seq<char> {
    "http://localhost:3000/lyric/?id="@ + id
}

/// The address that gives the lyric of song `id`.
pub fn lyric_url(id: &str) -> (u: String)
    ensures
        u@ == lyric_request(id@),
{
    let mut u = String::new();
    push_str(&mut u, "http://localhost:3000/lyric/?id=");
    push_str(&mut u, id);
    assert(u@ =~= lyric_request(id@));
    u
}

// ---------------------------------------------------------------------------
// Songs from track records
// ---------------------------------------------------------------------------

/// What a track record of the playlist service holds that the downloader uses.
pub struct TrackInfo {
    pub id: i64,
    pub name: String,
    /// The names of the track's artists, in order.
    pub artists: Vec<String>,
    /// The address of the album picture.
    pub pic_url: String,
    pub album: String,
}

/// The names of the first three artists of a track.
pub open spec fn lead_artists(artists: Seq<Seq<char>>) -> Seq<Seq<char>> {
    if artists.len() >= 3 {
        artists.take(3)
    } else {
        artists
    }
}

/// A track is credited to all of its artists when it has fewer than three,
/// and to exactly its first three otherwise, in their order.
pub proof fn lemma_lead_artists(artists: Seq<Seq<char>>)
    ensures
        lead_artists(artists).len() == (if artists.len() < 3 {
            artists.len()
        } else {
            3
        }),
        forall|i: int|
            0 <= i < lead_artists(artists).len() ==> #[trigger] lead_artists(artists)[i]
                == artists[i],
        artists.len() <= 3 ==> lead_artists(artists) == artists,
        lead_artists(artists) == artists.take(if artists.len() < 3 {
            artists.len() as int
        } else {
            3
        }),
{
    if artists.len() < 3 {
        assert(artists.take(artists.len() as int) =~= artists);
    }
}

/// The song that a track record describes: named `artists - title` after the
/// first three artists, with the picture asked for at 1400 by 1400, and with no
/// download address or file type yet.
pub open spec fn track_song(
    id: int,
    name: Seq<char>,
    artists: Seq<Seq<char>>,
    pic_url: Seq<char>,
    album: Seq<char>,
) -> MusicView {
    let credit = joined(lead_artists(artists), ","@);
    MusicView {
        id: decimal(id),
        name: credit + " - "@ + sanitized(name),
        pic_url: pic_url + "?param=1400y1400"@,
        singer: sanitized(credit),
        album: album,
        donw_url: seq![],
        file_type: seq![],
    }
}

impl TrackInfo {
    /// The song this record describes.
    pub open spec fn song(&self) -> MusicView {
        track_song(
            self.id as int,
            self.name@,
            self.artists@.map_values(|a: String| a@),
            self.pic_url@,
            self.album@,
        )
    }
}

/// The song that a track record describes.
pub fn music_from_track(track: &TrackInfo) -> (m: Music)
    ensures
        m@ == track.song(),
        m@.id == decimal(track.id as int),
        m@.name == joined(
            track.artists@.map_values(|a: String| a@).take(
                if track.artists.len() < 3 {
                    track.artists.len() as int
                } else {
                    3
                },
            ),
            ","@,
        ) + " - "@ + sanitized(track.name@),
        m@.singer == sanitized(
            joined(
                track.artists@.map_values(|a: String| a@).take(
                    if track.artists.len() < 3 {
                        track.artists.len() as int
                    } else {
                        3
                    },
                ),
                ","@,
            ),
        ),
        m@.pic_url == track.pic_url@ + "?param=1400y1400"@,
        m@.album == track.album@,
        m@.donw_url == Seq::<char>::empty(),
        m@.file_type == Seq::<char>::empty(),
{
    proof {
        lemma_lead_artists(track.artists@.map_values(|a: String| a@));
    }
    let mut lead: Vec<String> = Vec::new();
    let n: usize = if track.artists.len() >= 3 {
        3
    } else {
        track.artists.len()
    };
    let ghost all = track.artists@.map_values(|a: String| a@);
    let mut i: usize = 0;
    while i < n
        invariant
            i <= n <= track.artists.len(),
            n == (if track.artists.len() >= 3 {
                3
            } else {
                track.artists.len()
            }),
            all == track.artists@.map_values(|a: String| a@),
            lead@.map_values(|a: String| a@) =~= all.take(i as int),
        decreases n - i,
    {
        assert(all.take(i + 1) =~= all.take(i as int).push(all[i as int]));
        assert(all[i as int] == track.artists@[i as int]@);
        lead.push(track.artists[i].clone());
        i = i + 1;
    }
    assert(all.take(n as int) =~= lead_artists(all));
    let credit = join_strings(&lead, ",");
    let mut name = String::new();
    push_str(&mut name, credit.as_str());
    push_str(&mut name, " - ");
    let title = sy_re(track.name.clone());
    push_str(&mut name, title.as_str());
    let mut pic_url = String::new();
    push_str(&mut pic_url, track.pic_url.as_str());
    push_str(&mut pic_url, "?param=1400y1400");
    let singer = sy_re(credit);
    let m = Music {
        id: decimal_string(track.id),
        name,
        pic_url,
        singer,
        album: track.album.clone(),
        donw_url: String::new(),
        file_type: String::new(),
    };
    assert(m@ =~= track.song());
    m
}

/// The songs of the playlist keyed by identifier, in track order; of two
/// tracks with the same identifier the later one counts.
pub fn playlist_songs(tracks: &Vec<TrackInfo>) -> (m: MusicMap)
    ensures
        m@ == indexed(tracks@.map_values(|t: TrackInfo| t.song())),
{
    let mut songs: Vec<Music> = Vec::new();
    let mut i: usize = 0;
    while i < tracks.len()
        invariant
            i <= tracks.len(),
            songs@.map_values(|x: Music| x@) =~= tracks@.take(i as int).map_values(
                |t: TrackInfo| t.song(),
            ),
        decreases tracks.len() - i,
    {
        assert(tracks@.take(i + 1).map_values(|t: TrackInfo| t.song()) =~= tracks@.take(
            i as int,
        ).map_values(|t: TrackInfo| t.song()).push(tracks@[i as int].song()));
        songs.push(music_from_track(&tracks[i]));
        i = i + 1;
    }
    assert(tracks@.take(i as int) =~= tracks@);
    index_by_id(songs)
}

impl MusicDownload {
    /// Records the playlist's name and picture.
    pub fn name_playlist(&mut self, name: String, pic_url: String)
        ensures
            final(self).playlist_name@ == name@,
            final(self).playlist_pic_url@ == pic_url@,
            final(self).all_music@ == old(self).all_music@,
            final(self).palylist_id == old(self).palylist_id,
            final(self).save_path == old(self).save_path,
            final(self).music_info_path == old(self).music_info_path,
            final(self).option == old(self).option,
            final(self).require_music@ == old(self).require_music@,
            final(self).already_music@ == old(self).already_music@,
    {
        self.playlist_name = name;
        self.playlist_pic_url = pic_url;
    }

    /// Records the playlist's songs, from its track records in order.
    pub fn record_tracks(&mut self, tracks: &Vec<TrackInfo>)
        ensures
            final(self).all_music@ == indexed(tracks@.map_values(|t: TrackInfo| t.song())),
            final(self).playlist_name == old(self).playlist_name,
            final(self).playlist_pic_url == old(self).playlist_pic_url,
            final(self).palylist_id == old(self).palylist_id,
            final(self).save_path == old(self).save_path,
            final(self).music_info_path == old(self).music_info_path,
            final(self).option == old(self).option,
            final(self).require_music@ == old(self).require_music@,
            final(self).already_music@ == old(self).already_music@,
    {
        self.all_music = playlist_songs(tracks);
    }

    /// Records the songs already downloaded, as the info file lists them, and
    /// sets the songs still to download to those of the playlist that were
    /// not downloaded (and downloaded ones the playlist no longer has).
    pub fn plan_downloads(&mut self, saved: Vec<Music>)
        ensures
            final(self).already_music@ == indexed(saved@.map_values(|x: Music| x@)),
            final(self).require_music@ == symmetric_difference(
                final(self).all_music@,
                final(self).already_music@,
            ),
            final(self).all_music@ == old(self).all_music@,
            final(self).palylist_id == old(self).palylist_id,
            final(self).playlist_name == old(self).playlist_name,
            final(self).playlist_pic_url == old(self).playlist_pic_url,
            final(self).save_path == old(self).save_path,
            final(self).music_info_path == old(self).music_info_path,
            final(self).option == old(self).option,
    {
        self.already_music = index_by_id(saved);
        self.require_music = diff_hashmap(&self.all_music, &self.already_music);
    }

    /// The address that gives the download addresses of the songs still to
    /// download, at lossless quality.
    pub fn song_url_request(&self) -> (u: String)
        ensures
            u@ == song_urls_request(self.require_music.key_order()),
    {
        let ids = self.require_music.keys();
        let mut u = String::new();
        push_str(&mut u, "http://localhost:3000/song/url/v1?id=");
        let list = join_strings(&ids, ",");
        push_str(&mut u, list.as_str());
        push_str(&mut u, "&level=lossless");
        assert(u@ =~= song_urls_request(self.require_music.key_order()));
        u
    }
}

// ---------------------------------------------------------------------------
// Download addresses
// ---------------------------------------------------------------------------

/// The text that stands for a song with no usable download address.
pub open spec fn no_url() -> Seq<char> {
    "null"@
}

/// The download address of a song as the service reported it: a missing
/// address, or one that ends in `.`, counts as none.
pub open spec fn usable_url(url: Option<Seq<char>>) -> Seq<char> {
    match url {
        Some(u) => if u.last() != '.' {
            u
        } else {
            no_url()
        },
        None => no_url(),
    }
}

/// A reported address that does not end in `.` is kept unchanged, whatever
/// its length; one that ends in `.`, or a missing one, becomes `null`.
pub proof fn lemma_usable_url_keeps_address(u: Seq<char>)
    ensures
        u.len() > 0 && u.last() != '.' ==> usable_url(Some(u)) == u,
        u.len() > 0 && u.last() == '.' ==> usable_url(Some(u)) == "null"@,
        usable_url(None) == "null"@,
{
}

/// What the service reported for one song: its identifier and its download
/// address, when it gave one.
pub struct SongUrl {
    pub id: i64,
    pub url: Option<String>,
}

impl SongUrl {
    /// The reported address as text.
    pub open spec fn url_view(&self) -> Option<Seq<char>> {
        match self.url {
            Some(u) => Some(u@),
            None => None,
        }
    }

    /// The song key and the usable address of this report.
    pub open spec fn entry(&self) -> (Seq<char>, Seq<char>) {
        (decimal(self.id as int), usable_url(self.url_view()))
    }

    /// An address that is given is not empty.
    pub open spec fn well_formed(&self) -> bool {
        self.url matches Some(u) ==> u@.len() > 0
    }
}

/// The usable download address for a report.
pub fn resolve_url(url: &Option<String>) -> (u: String)
    requires
        url matches Some(s) ==> s@.len() > 0,
    ensures
        u@ == usable_url(
            match url {
                Some(s) => Some(s@),
                None => None,
            },
        ),
        url matches Some(s) ==> (s@.last() != '.' ==> u@ == s@),
        url matches Some(s) ==> (s@.last() == '.' ==> u@ == "null"@),
        url is None ==> u@ == "null"@,
{
    proof {
        match url {
            Some(s) => lemma_usable_url_keeps_address(s@),
            None => lemma_usable_url_keeps_address(Seq::<char>::empty()),
        }
    }
    match url {
        Some(s) => {
            let cs = chars_of(s.as_str());
            if cs[cs.len() - 1] != '.' {
                s.clone()
            } else {
                null_text()
            }
        },
        None => null_text(),
    }
}

/// The text `null`.
fn null_text() -> (s: String)
    ensures
        s@ == no_url(),
{
    let mut s = String::new();
    push_str(&mut s, "null");
    assert(s@ =~= no_url());
    s
}

/// The usable address of the last report for `key`, if there is one.
pub open spec fn latest_url(entries: Seq<(Seq<char>, Seq<char>)>, key: Seq<char>) -> Option<
    Seq<char>,
>
    decreases entries.len(),
{
    if entries.len() == 0 {
        None
    } else if entries.last().0 == key {
        Some(entries.last().1)
    } else {
        latest_url(entries.drop_last(), key)
    }
}

/// What follows the last `.` of `s`, or all of `s` when it has none.
pub open spec fn after_last_dot(s: Seq<char>) -> Seq<char>
    decreases s.len(),
{
    if s.len() == 0 {
        s
    } else if s.last() == '.' {
        seq![]
    } else {
        after_last_dot(s.drop_last()).push(s.last())
    }
}

/// The file type of a download address: what follows its last `.`, in lower case.
pub open spec fn file_type_of(url: Seq<char>) -> Seq<char> {
    after_last_dot(url).map_values(|c: char| ascii_lower(c))
}

/// The file type of a download address: what follows its last `.`, in lower case.
pub fn url_file_type(url: &str) -> (t: String)
    ensures
        t@ == file_type_of(url@),
{
    let cs = chars_of(url);
    let mut k: usize = cs.len();
    assert(cs@.take(k as int) =~= cs@);
    assert(cs@.take(k as int) + cs@.skip(k as int) =~= cs@);
    while k > 0 && cs[k - 1] != '.'
        invariant
            k <= cs.len(),
            after_last_dot(cs@) == after_last_dot(cs@.take(k as int)) + cs@.skip(k as int),
        decreases k,
    {
        assert(cs@.take(k as int).drop_last() =~= cs@.take(k - 1));
        assert(cs@.skip(k - 1) =~= seq![cs@[k - 1]] + cs@.skip(k as int));
        assert(after_last_dot(cs@.take(k as int)) =~= after_last_dot(cs@.take(k - 1)).push(
            cs@[k - 1],
        ));
        k = k - 1;
    }
    assert(after_last_dot(cs@.take(k as int)) =~= Seq::<char>::empty()) by {
        if k > 0 {
            assert(cs@.take(k as int).last() == '.');
        }
    }
    let tail = crate::text::slice_chars(&cs, k, cs.len());
    assert(tail@ =~= cs@.skip(k as int));
    let lower = to_ascii_lower(&tail);
    string_of(&lower)
}

/// `song` with the download address `url` and the file type it implies.
pub open spec fn with_url(song: MusicView, url: Seq<char>) -> MusicView {
    MusicView { donw_url: url, file_type: file_type_of(url), ..song }
}

/// The songs of `songs`, each with the usable address of the last report for
/// it and the file type that address implies; songs no report names are
/// left as they are.
pub open spec fn songs_with_urls(
    songs: Map<Seq<char>, MusicView>,
    entries: Seq<(Seq<char>, Seq<char>)>,
) -> Map<Seq<char>, MusicView> {
    Map::new(
        |k: Seq<char>| songs.dom().contains(k),
        |k: Seq<char>|
            match latest_url(entries, k) {
                Some(u) => with_url(songs[k], u),
                None => songs[k],
            },
    )
}

/// The songs still to download, each given the usable address of the last
/// report for it and the file type that address implies.
pub fn apply_song_urls(songs: &MusicMap, reports: &Vec<SongUrl>) -> (m: MusicMap)
    requires
        forall|i: int| 0 <= i < reports@.len() ==> (#[trigger] reports@[i]).well_formed(),
    ensures
        m@ == songs_with_urls(songs@, reports@.map_values(|r: SongUrl| r.entry())),
{
    let ghost entries = reports@.map_values(|r: SongUrl| r.entry());
    let mut ids: Vec<String> = Vec::new();
    let mut urls: Vec<String> = Vec::new();
    let mut j: usize = 0;
    while j < reports.len()
        invariant
            j <= reports.len(),
            entries == reports@.map_values(|r: SongUrl| r.entry()),
            forall|i: int| 0 <= i < reports@.len() ==> (#[trigger] reports@[i]).well_formed(),
            ids@.len() == j,
            urls@.len() == j,
            forall|i: int|
                0 <= i < j ==> (#[trigger] ids@[i])@ == entries[i].0 && urls@[i]@ == entries[i].1,
        decreases reports.len() - j,
    {
        assert(reports@[j as int].well_formed());
        ids.push(decimal_string(reports[j].id));
        urls.push(resolve_url(&reports[j].url));
        j = j + 1;
    }
    let keys = songs.keys();
    let ghost order = songs.key_order();
    let mut m = MusicMap::new();
    let mut i: usize = 0;
    while i < keys.len()
        invariant
            i <= keys.len(),
            keys@.map_values(|k: String| k@) == order,
            forall|k: Seq<char>| songs@.dom().contains(k) <==> order.contains(k),
            ids@.len() == entries.len(),
            urls@.len() == entries.len(),
            forall|t: int|
                0 <= t < entries.len() ==> (#[trigger] ids@[t])@ == entries[t].0 && urls@[t]@
                    == entries[t].1,
            m@ =~= Map::new(
                |k: Seq<char>| order.take(i as int).contains(k),
                |k: Seq<char>|
                    match latest_url(entries, k) {
                        Some(u) => with_url(songs@[k], u),
                        None => songs@[k],
                    },
            ),
        decreases keys.len() - i,
    {
        let key = &keys[i];
        assert(order[i as int] == key@);
        assert(order.contains(key@));
        let song = match songs.get(key.as_str()) {
            Some(s) => s.duplicate(),
            None => {
                assert(false);
                Music::placeholder()
            },
        };
        let found = latest_report(&ids, key.as_str());
        proof {
            lemma_latest_url_at(entries, key@, ids@.len() as int);
        }
        proof {
            match found {
                Some(t) => {
                    assert forall|u: int| t < u < entries.len() implies (#[trigger] entries[u]).0
                        != key@ by {
                        assert(ids@[u]@ == entries[u].0);
                    }
                    assert(ids@[t as int]@ == entries[t as int].0);
                },
                None => {
                    assert forall|u: int| 0 <= u < entries.len() implies (#[trigger] entries[u]).0
                        != key@ by {
                        assert(ids@[u]@ == entries[u].0);
                    }
                },
            }
        }
        let updated = match found {
            Some(t) => {
                let url = urls[t].clone();
                let file_type = url_file_type(url.as_str());
                Music { donw_url: url, file_type, ..song }
            },
            None => song,
        };
        m.insert(key.clone(), updated);
        proof {
            crate::music::lemma_take_next_contains(order, i as int);
        }
        i = i + 1;
    }
    assert(order.take(i as int) =~= order);
    assert(m@ =~= songs_with_urls(songs@, entries));
    m
}

/// The position of the last identifier in `ids` equal to `key`, if any.
fn latest_report(ids: &Vec<String>, key: &str) -> (r: Option<usize>)
    ensures
        r matches Some(t) ==> t < ids@.len() && ids@[t as int]@ == key@ && forall|u: int|
            t < u < ids@.len() ==> (#[trigger] ids@[u])@ != key@,
        r is None ==> forall|u: int| 0 <= u < ids@.len() ==> (#[trigger] ids@[u])@ != key@,
{
    let mut k: usize = ids.len();
    while k > 0
        invariant
            k <= ids@.len(),
            forall|u: int| k <= u < ids@.len() ==> (#[trigger] ids@[u])@ != key@,
        decreases k,
    {
        k = k - 1;
        if crate::music::str_eq(ids[k].as_str(), key) {
            return Some(k);
        }
    }
    None
}

/// The last report for `key` among the first `n` decides `latest_url`.
proof fn lemma_latest_url_at(entries: Seq<(Seq<char>, Seq<char>)>, key: Seq<char>, n: int)
    requires
        n == entries.len(),
    ensures
        forall|t: int|
            0 <= t < n && entries[t].0 == key && (forall|u: int|
                t < u < n ==> (#[trigger] entries[u]).0 != key) ==> latest_url(entries, key) == Some(
                entries[t].1,
            ),
        (forall|u: int| 0 <= u < n ==> (#[trigger] entries[u]).0 != key) ==> latest_url(
            entries,
            key,
        ) is None,
    decreases n,
{
    if n > 0 {
        let p = entries.drop_last();
        lemma_latest_url_at(p, key, n - 1);
        assert forall|t: int|
            0 <= t < n && entries[t].0 == key && (forall|u: int|
                t < u < n ==> (#[trigger] entries[u]).0 != key) implies latest_url(entries, key)
            == Some(entries[t].1) by {
            if t < n - 1 {
                assert(entries[n - 1].0 != key);
                assert forall|u: int| t < u < n - 1 implies (#[trigger] p[u]).0 != key by {
                    assert(p[u] == entries[u]);
                }
                assert(p[t] == entries[t]);
            }
        }
        if forall|u: int| 0 <= u < n ==> (#[trigger] entries[u]).0 != key {
            assert(entries[n - 1].0 != key);
            assert forall|u: int| 0 <= u < n - 1 implies (#[trigger] p[u]).0 != key by {
                assert(p[u] == entries[u]);
            }
        }
    }
}

// ---------------------------------------------------------------------------
// Files
// ---------------------------------------------------------------------------

/// The file of a song: in the playlist's folder, named after the song with
/// the file type as extension.
pub open spec fn song_file(
    save_path: Seq<char>,
    playlist_name: Seq<char>,
    name: Seq<char>,
    file_type: Seq<char>,
) -> Seq<char> {
    save_path + playlist_name + "/"@ + sanitized(name) + "."@ + file_type
}

/// The path of the file of a song named `name` with file type `file_type`.
pub fn music_file_path(save_path: &str, playlist_name: &str, name: &str, file_type: &str) -> (p:
    String)
    ensures
        p@ == song_file(save_path@, playlist_name@, name@, file_type@),
{
    let mut p = String::new();
    push_str(&mut p, save_path);
    push_str(&mut p, playlist_name);
    push_str(&mut p, "/");
    let clean = sy_re(string_of(&chars_of(name)));
    push_str(&mut p, clean.as_str());
    push_str(&mut p, ".");
    push_str(&mut p, file_type);
    assert(p@ =~= song_file(save_path@, playlist_name@, name@, file_type@));
    p
}

/// Whether a song has a download address to fetch it from.
pub fn needs_download(song: &Music) -> (b: bool)
    ensures
        b == (song@.donw_url != no_url()),
{
    let null = null_text();
    !crate::music::str_eq(song.donw_url.as_str(), null.as_str())
}

impl MusicDownload {
    /// The folder that the playlist's songs go into.
    pub fn playlist_dir(&self) -> (p: String)
        ensures
            p@ == self.save_path@ + self.playlist_name@,
    {
        let mut p = String::new();
        push_str(&mut p, self.save_path.as_str());
        push_str(&mut p, self.playlist_name.as_str());
        assert(p@ =~= self.save_path@ + self.playlist_name@);
        p
    }

    /// The path of the file of `song` in the playlist's folder.
    pub fn song_path(&self, song: &Music) -> (p: String)
        ensures
            p@ == song_file(self.save_path@, self.playlist_name@, song@.name, song@.file_type),
    {
        music_file_path(
            self.save_path.as_str(),
            self.playlist_name.as_str(),
            song.name.as_str(),
            song.file_type.as_str(),
        )
    }

    /// Records `song` as downloaded.
    pub fn record_downloaded(&mut self, song: &Music)
        ensures
            final(self).already_music@ == old(self).already_music@.insert(song@.id, song@),
            final(self).all_music@ == old(self).all_music@,
            final(self).require_music@ == old(self).require_music@,
            final(self).palylist_id == old(self).palylist_id,
            final(self).playlist_name == old(self).playlist_name,
            final(self).playlist_pic_url == old(self).playlist_pic_url,
            final(self).save_path == old(self).save_path,
            final(self).music_info_path == old(self).music_info_path,
            final(self).option == old(self).option,
    {
        self.already_music.insert(song.id.clone(), song.duplicate());
    }

    /// The songs already downloaded, each with the path of its file.
    pub fn tag_targets(&self) -> (r: Vec<(String, Music)>)
        ensures
            r@.len() == self.already_music.key_order().len(),
            forall|i: int|
                0 <= i < r@.len() ==> {
                    let song = self.already_music@[self.already_music.key_order()[i]];
                    &&& (#[trigger] r@[i]).1@ == song
                    &&& r@[i].0@ == song_file(
                        self.save_path@,
                        self.playlist_name@,
                        song.name,
                        song.file_type,
                    )
                },
    {
        let songs = self.already_music.values();
        let mut r: Vec<(String, Music)> = Vec::new();
        let mut i: usize = 0;
        while i < songs.len()
            invariant
                i <= songs.len(),
                songs@.len() == self.already_music.key_order().len(),
                forall|t: int|
                    0 <= t < songs@.len() ==> #[trigger] songs@[t]@
                        == self.already_music@[self.already_music.key_order()[t]],
                r@.len() == i,
                forall|t: int|
                    0 <= t < i ==> {
                        let song = self.already_music@[self.already_music.key_order()[t]];
                        &&& (#[trigger] r@[t]).1@ == song
                        &&& r@[t].0@ == song_file(
                            self.save_path@,
                            self.playlist_name@,
                            song.name,
                            song.file_type,
                        )
                    },
            decreases songs.len() - i,
        {
            assert(songs@[i as int]@ == self.already_music@[self.already_music.key_order()[i as int]]);
            let path = self.song_path(&songs[i]);
            r.push((path, songs[i].duplicate()));
            i = i + 1;
        }
        r
    }
}

/// What the info file records: the playlist and the songs downloaded so far.
pub struct PlaylistInfo {
    pub id: String,
    pub name: String,
    pub pic_url: String,
    pub total: usize,
    pub data: Vec<Music>,
}

impl MusicDownload {
    /// What the info file should record now.
    pub fn playlist_info(&self) -> (info: PlaylistInfo)
        ensures
            info.id@ == self.palylist_id@,
            info.name@ == self.playlist_name@,
            info.pic_url@ == self.playlist_pic_url@,
            info.total == self.already_music@.len(),
            info.data@.len() == self.already_music.key_order().len(),
            forall|i: int|
                0 <= i < info.data@.len() ==> #[trigger] info.data@[i]@
                    == self.already_music@[self.already_music.key_order()[i]],
            self.already_music.key_order().no_duplicates(),
            forall|k: Seq<char>|
                self.already_music@.dom().contains(k) <==> self.already_music.key_order().contains(
                    k,
                ),
    {
        PlaylistInfo {
            id: self.palylist_id.clone(),
            name: self.playlist_name.clone(),
            pic_url: self.playlist_pic_url.clone(),
            total: self.already_music.len(),
            data: self.already_music.values(),
        }
    }
}

// ---------------------------------------------------------------------------
// Laws
// ---------------------------------------------------------------------------

/// The pages asked for cover every track of the playlist: track `t` lies on
/// page `t / 50`.
pub proof fn lemma_pages_cover_tracks(track_count: int, t: int)
    requires
        0 <= t < track_count,
    ensures
        0 <= t / 50 < page_count(track_count),
        50 * (t / 50) <= t < 50 * (t / 50) + 50,
{
    assert(t / 50 <= track_count / 50) by (nonlinear_arith)
        requires
            0 <= t < track_count,
    ;
}

/// When the tracks have distinct identifiers, the playlist's table holds
/// every track's song under the track's identifier written in decimal.
pub proof fn lemma_playlist_keeps_every_track(tracks: Seq<TrackInfo>, i: int)
    requires
        0 <= i < tracks.len(),
        forall|a: int, b: int| 0 <= a < b < tracks.len() ==> tracks[a].id != tracks[b].id,
    ensures
        indexed(tracks.map_values(|t: TrackInfo| t.song())).dom().contains(
            decimal(tracks[i].id as int),
        ),
        indexed(tracks.map_values(|t: TrackInfo| t.song()))[decimal(tracks[i].id as int)]
            == tracks[i].song(),
{
    let songs = tracks.map_values(|t: TrackInfo| t.song());
    assert forall|j: int| i < j < songs.len() implies songs[j].id != songs[i].id by {
        assert(songs[j].id == decimal(tracks[j].id as int));
        assert(songs[i].id == decimal(tracks[i].id as int));
        if songs[j].id == songs[i].id {
            crate::text::lemma_decimal_injective(tracks[j].id as int, tracks[i].id as int);
        }
    }
    crate::music::lemma_indexed_last_wins(songs, i);
}

/// Once a song of the playlist is recorded as downloaded it is no longer to
/// download, and recording it adds nothing to what is left to download.
pub proof fn lemma_recorded_song_not_required(
    all: Map<Seq<char>, MusicView>,
    done: Map<Seq<char>, MusicView>,
    song: MusicView,
)
    requires
        all.dom().contains(song.id),
    ensures
        !symmetric_difference(all, done.insert(song.id, song)).dom().contains(song.id),
        symmetric_difference(all, done.insert(song.id, song)).dom().subset_of(
            symmetric_difference(all, done).dom(),
        ),
{
}

/// A usable address is either `null` or the reported address, which then
/// does not end in `.`.
pub proof fn lemma_usable_url_shape(url: Option<Seq<char>>)
    ensures
        usable_url(url) == no_url() || (url matches Some(u) && usable_url(url) == u && u.last()
            != '.'),
{
}

/// A file type holds no `.` and no upper-case ASCII letter.
pub proof fn lemma_file_type_shape(url: Seq<char>)
    ensures
        forall|i: int|
            0 <= i < file_type_of(url).len() ==> #[trigger] file_type_of(url)[i] != '.' && !(
            'A' <= file_type_of(url)[i] <= 'Z'),
{
    lemma_after_last_dot_has_no_dot(url);
    let tail = after_last_dot(url);
    assert forall|i: int| 0 <= i < file_type_of(url).len() implies #[trigger] file_type_of(url)[i]
        != '.' && !('A' <= file_type_of(url)[i] <= 'Z') by {
        assert(file_type_of(url)[i] == ascii_lower(tail[i]));
        assert(tail[i] != '.');
        if 'A' <= tail[i] <= 'Z' {
            assert((tail[i] as u32) + 32 >= 0x61);
        }
    }
}

/// What follows the last `.` holds no `.`.
proof fn lemma_after_last_dot_has_no_dot(s: Seq<char>)
    ensures
        forall|i: int| 0 <= i < after_last_dot(s).len() ==> #[trigger] after_last_dot(s)[i] != '.',
    decreases s.len(),
{
    if s.len() > 0 && s.last() != '.' {
        lemma_after_last_dot_has_no_dot(s.drop_last());
        let prev = after_last_dot(s.drop_last());
        assert forall|i: int| 0 <= i < after_last_dot(s).len() implies #[trigger] after_last_dot(
            s,
        )[i] != '.' by {
            if i < prev.len() {
                assert(after_last_dot(s)[i] == prev[i]);
            }
        }
    }
}

/// The playlist's songs, keyed by identifier, as `record_tracks` records them.
pub open spec fn playlist_table(tracks: Seq<TrackInfo>) -> Map<Seq<char>, MusicView> {
    indexed(tracks.map_values(|t: TrackInfo| t.song()))
}

/// The playlist's songs are held under their own identifiers, and its keys
/// are exactly the tracks' identifiers written in decimal.
pub proof fn lemma_playlist_songs_keyed(tracks: Seq<TrackInfo>)
    ensures
        crate::music::keyed_by_id(playlist_table(tracks)),
        forall|k: Seq<char>|
            #[trigger] playlist_table(tracks).dom().contains(k) <==> exists|i: int|
                0 <= i < tracks.len() && decimal(tracks[i].id as int) == k,
{
    let songs = tracks.map_values(|t: TrackInfo| t.song());
    crate::music::lemma_indexed_keyed(songs);
    assert forall|k: Seq<char>|
        #[trigger] indexed(songs).dom().contains(k) <==> exists|i: int|
            0 <= i < tracks.len() && decimal(tracks[i].id as int) == k by {
        if exists|i: int| 0 <= i < tracks.len() && decimal(tracks[i].id as int) == k {
            let i = choose|i: int| 0 <= i < tracks.len() && decimal(tracks[i].id as int) == k;
            assert(songs[i].id == k);
        }
        if indexed(songs).dom().contains(k) {
            let i = choose|i: int| 0 <= i < songs.len() && songs[i].id == k;
            assert(decimal(tracks[i].id as int) == k);
        }
    }
}

/// Giving songs their download addresses keeps each under its own identifier.
pub proof fn lemma_songs_with_urls_keyed(
    songs: Map<Seq<char>, MusicView>,
    entries: Seq<(Seq<char>, Seq<char>)>,
)
    requires
        crate::music::keyed_by_id(songs),
    ensures
        crate::music::keyed_by_id(songs_with_urls(songs, entries)),
{
    assert forall|k: Seq<char>| #[trigger] songs_with_urls(songs, entries).dom().contains(k) implies songs_with_urls(
        songs,
        entries,
    )[k].id == k by {
        assert(songs.dom().contains(k));
    }
}

/// The file name that a song's file gets holds no character that file
/// systems reserve, whatever the song's name.
pub proof fn lemma_song_file_name_safe(
    save_path: Seq<char>,
    playlist_name: Seq<char>,
    name: Seq<char>,
    file_type: Seq<char>,
)
    ensures
        song_file(save_path, playlist_name, name, file_type) == save_path + playlist_name + "/"@
            + sanitized(name) + "."@ + file_type,
        forall|i: int|
            0 <= i < sanitized(name).len() ==> !crate::sanitize::is_reserved(
                #[trigger] sanitized(name)[i],
            ),
{
    crate::sanitize::lemma_sanitized_has_no_reserved(name);
}

} // verus!
