use music_download::music::{Music, MusicMap};
use music_download::playlist::{
    apply_song_urls, info_file_path, lyric_url, music_file_path, music_from_track, needs_download,
    page_offsets, playlist_detail_url, playlist_songs, resolve_url, track_page_url, url_file_type,
    MusicDownload, SongUrl, TrackInfo,
};

fn song(id: &str, name: &str) -> Music {
    Music {
        id: id.to_string(),
        name: name.to_string(),
        pic_url: String::new(),
        singer: String::new(),
        album: String::new(),
        donw_url: String::new(),
        file_type: String::new(),
    }
}

fn track(id: i64, name: &str, artists: &[&str]) -> TrackInfo {
    TrackInfo {
        id,
        name: name.to_string(),
        artists: artists.iter().map(|a| a.to_string()).collect(),
        pic_url: "http://p/1.jpg".to_string(),
        album: "Album".to_string(),
    }
}

fn downloader() -> MusicDownload {
    MusicDownload::new("42".to_string(), serde_json::Value::Null, "/music/".to_string())
}

#[test]
fn new_sets_paths_from_music_path_and_id() {
    let d = downloader();
    assert_eq!(d.palylist_id, "42");
    assert_eq!(d.save_path, "/music/");
    assert_eq!(d.music_info_path, "/music/42.json");
    assert_eq!(d.playlist_name, "");
    assert!(d.all_music.is_empty() && d.already_music.is_empty() && d.require_music.is_empty());
    assert_eq!(info_file_path("/m/", "7"), "/m/7.json");
}

#[test]
fn request_addresses() {
    assert_eq!(playlist_detail_url("6904724287"), "http://localhost:3000/playlist/detail?id=6904724287");
    assert_eq!(
        track_page_url("12", 100),
        "http://localhost:3000/playlist/track/all?id=12&limit=50&offset=100"
    );
    assert_eq!(lyric_url("5"), "http://localhost:3000/lyric/?id=5");
}

#[test]
fn page_offsets_cover_the_track_count() {
    assert_eq!(page_offsets(0), vec![0]);
    assert_eq!(page_offsets(49), vec![0]);
    assert_eq!(page_offsets(50), vec![0, 50]);
    assert_eq!(page_offsets(120), vec![0, 50, 100]);
    assert_eq!(page_offsets(-1), vec![0]);
    assert_eq!(page_offsets(-49), vec![0]);
    assert_eq!(page_offsets(-50), Vec::<i64>::new());
}

#[test]
fn music_from_track_names_song_after_first_three_artists() {
    let m = music_from_track(&track(17, "Why?", &["A", "B", "C", "D"]));
    assert_eq!(m.id, "17");
    assert_eq!(m.name, "A,B,C - Why");
    assert_eq!(m.singer, "A,B,C");
    assert_eq!(m.pic_url, "http://p/1.jpg?param=1400y1400");
    assert_eq!(m.album, "Album");
    assert_eq!(m.donw_url, "");
    assert_eq!(m.file_type, "");
}

#[test]
fn music_from_track_sanitizes_singer_but_not_credit_in_name() {
    let m = music_from_track(&track(-3, "x/y", &["AC/DC"]));
    assert_eq!(m.id, "-3");
    assert_eq!(m.name, "AC/DC - x\u{ff0f}y");
    assert_eq!(m.singer, "AC\u{ff0f}DC");
}

#[test]
fn playlist_songs_keys_by_track_id() {
    let m = playlist_songs(&vec![track(1, "a", &["x"]), track(2, "b", &["y"]), track(1, "c", &["z"])]);
    assert_eq!(m.keys(), vec!["1".to_string(), "2".to_string()]);
    assert_eq!(m.get("1").unwrap().name, "z - c");
}

#[test]
fn plan_downloads_leaves_songs_not_yet_downloaded() {
    let mut d = downloader();
    d.name_playlist("My List".to_string(), "http://pic".to_string());
    d.record_tracks(&vec![track(1, "a", &["x"]), track(2, "b", &["y"]), track(3, "c", &["z"])]);
    assert_eq!(d.playlist_name, "My List");
    assert_eq!(d.playlist_pic_url, "http://pic");
    assert_eq!(d.all_music.len(), 3);
    d.plan_downloads(vec![song("2", "y - b")]);
    assert_eq!(d.already_music.keys(), vec!["2".to_string()]);
    assert_eq!(d.require_music.keys(), vec!["1".to_string(), "3".to_string()]);
    assert_eq!(
        d.song_url_request(),
        "http://localhost:3000/song/url/v1?id=1,3&level=lossless"
    );
}

#[test]
fn resolve_url_rejects_missing_and_dot_ended_addresses() {
    assert_eq!(resolve_url(&Some("http://a/b.flac".to_string())), "http://a/b.flac");
    assert_eq!(resolve_url(&Some("http://a/b.".to_string())), "null");
    assert_eq!(resolve_url(&None), "null");
}

#[test]
fn url_file_type_is_lower_case_extension() {
    assert_eq!(url_file_type("http://x/y.Mp3"), "mp3");
    assert_eq!(url_file_type("http://x.y/z.FLAC"), "flac");
    assert_eq!(url_file_type("null"), "null");
    assert_eq!(url_file_type("a."), "");
}

#[test]
fn apply_song_urls_sets_address_and_file_type() {
    let mut songs = MusicMap::new();
    songs.insert("1".to_string(), song("1", "a"));
    songs.insert("2".to_string(), song("2", "b"));
    songs.insert("3".to_string(), song("3", "c"));
    let reports = vec![
        SongUrl { id: 1, url: Some("http://h/1.FLAC".to_string()) },
        SongUrl { id: 2, url: Some("http://h/2.".to_string()) },
        SongUrl { id: 1, url: Some("http://h/1b.mp3".to_string()) },
        SongUrl { id: 9, url: None },
    ];
    let m = apply_song_urls(&songs, &reports);
    assert_eq!(m.len(), 3);
    let one = m.get("1").unwrap();
    assert_eq!(one.donw_url, "http://h/1b.mp3");
    assert_eq!(one.file_type, "mp3");
    let two = m.get("2").unwrap();
    assert_eq!(two.donw_url, "null");
    assert_eq!(two.file_type, "null");
    assert!(!needs_download(two));
    assert!(needs_download(one));
    let three = m.get("3").unwrap();
    assert_eq!(three.donw_url, "");
    assert_eq!(three.file_type, "");
    // the table that was given is not changed
    assert_eq!(songs.get("1").unwrap().donw_url, "");
}

#[test]
fn song_files_go_into_the_playlist_folder() {
    assert_eq!(music_file_path("/m/", "List", "A - B?", "flac"), "/m/List/A - B.flac");
    let mut d = downloader();
    d.name_playlist("L".to_string(), String::new());
    assert_eq!(d.playlist_dir(), "/music/L");
    let mut s = song("5", "x:y");
    s.file_type = "mp3".to_string();
    assert_eq!(d.song_path(&s), "/music/L/x\u{ff1a}y.mp3");
}

#[test]
fn recorded_songs_are_listed_in_info_and_targets() {
    let mut d = downloader();
    d.name_playlist("L".to_string(), "pic".to_string());
    let mut s = song("5", "n");
    s.file_type = "flac".to_string();
    d.record_downloaded(&s);
    d.record_downloaded(&song("6", "m"));
    let info = d.playlist_info();
    assert_eq!(info.id, "42");
    assert_eq!(info.name, "L");
    assert_eq!(info.pic_url, "pic");
    assert_eq!(info.total, 2);
    assert_eq!(info.data[0], s);
    let targets = d.tag_targets();
    assert_eq!(targets.len(), 2);
    assert_eq!(targets[0].0, "/music/L/n.flac");
    assert_eq!(targets[0].1, s);
}

#[test]
fn from_settings_takes_music_path_from_option_text() {
    let d = MusicDownload::from_settings("42".to_string(), r#"{"music_path": "/music/", "mp3": {}}"#)
        .unwrap();
    assert_eq!(d.save_path, "/music/");
    assert_eq!(d.music_info_path, "/music/42.json");
    assert_eq!(d.palylist_id, "42");
    assert!(d.option["mp3"].is_object());
    assert!(d.all_music.is_empty());
}

#[test]
fn from_settings_refuses_bad_option_text() {
    assert!(MusicDownload::from_settings("1".to_string(), "not json").is_none());
    assert!(MusicDownload::from_settings("1".to_string(), r#"{"other": 1}"#).is_none());
    assert!(MusicDownload::from_settings("1".to_string(), r#"{"music_path": 3}"#).is_none());
    assert!(MusicDownload::from_settings("1".to_string(), "[1, 2]").is_none());
}

#[test]
fn info_listing_indexes_back_to_downloaded_songs() {
    let mut d = downloader();
    d.record_downloaded(&song("5", "a"));
    d.record_downloaded(&song("6", "b"));
    d.record_downloaded(&song("5", "c"));
    let info = d.playlist_info();
    let back = music_download::music::index_by_id(info.data);
    assert_eq!(back.keys(), d.already_music.keys());
    for k in back.keys() {
        assert_eq!(back.get(&k), d.already_music.get(&k));
    }
}
