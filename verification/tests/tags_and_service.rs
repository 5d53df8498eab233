use music_download::cover::{check_png, cover_picture, is_png, CoverError};
use music_download::music::Music;
use music_download::playlist::MusicDownload;
use music_download::service::{
    init_step, init_succeeds, launch_script, parse_command, port_status, Command, ConnectOutcome,
    InitStep,
};
use music_download::tagging::{
    all_settings_on, flac_edits, mp3_frames, plan_tags, tag_format, tag_lyric, use_translation, FlacEdit, HostOs,
    Mp3Frame, PictureKind, TagDecision, TagFormat, TagPlan, TagSettings,
};

fn settings(all: bool, lyric: bool, translation: bool) -> TagSettings {
    TagSettings { all_enabled: all, lyric, translation, pic: true, title: true, artist: false }
}

fn song() -> Music {
    Music {
        id: "1".into(),
        name: "n".into(),
        pic_url: String::new(),
        singer: "Singer".into(),
        album: "Album".into(),
        donw_url: String::new(),
        file_type: "mp3".into(),
    }
}

fn full_plan(format: TagFormat) -> TagPlan {
    TagPlan { format, lyric: true, translation: true, cover: true, album: true, artist: true }
}

#[test]
fn tag_format_by_file_type() {
    assert_eq!(tag_format("mp3"), TagFormat::Mp3);
    assert_eq!(tag_format("flac"), TagFormat::Flac);
    assert_eq!(tag_format("MP3"), TagFormat::Other);
    assert_eq!(tag_format("null"), TagFormat::Other);
}

#[test]
fn plan_tags_skips_unless_all_settings_are_on() {
    assert_eq!(plan_tags(TagFormat::Mp3, &settings(false, true, true)), TagDecision::Skip);
    assert_eq!(plan_tags(TagFormat::Flac, &settings(false, true, true)), TagDecision::Skip);
    assert_eq!(plan_tags(TagFormat::Mp3, &settings(true, false, true)), TagDecision::Skip);
}

#[test]
fn plan_tags_mp3_takes_artist_by_title_setting() {
    match plan_tags(TagFormat::Mp3, &settings(true, true, false)) {
        TagDecision::Write(p) => {
            assert_eq!(p.format, TagFormat::Mp3);
            assert!(p.lyric && !p.translation && p.cover && p.album && p.artist);
        }
        TagDecision::Skip => panic!("expected a plan"),
    }
    match plan_tags(TagFormat::Flac, &settings(true, true, false)) {
        TagDecision::Write(p) => {
            assert_eq!(p.format, TagFormat::Flac);
            assert!(p.album && !p.artist);
        }
        TagDecision::Skip => panic!("expected a plan"),
    }
    match plan_tags(TagFormat::Other, &settings(false, false, false)) {
        TagDecision::Write(p) => assert!(!p.lyric && !p.cover && !p.album && !p.artist),
        TagDecision::Skip => panic!("expected a plan"),
    }
}

#[test]
fn use_translation_needs_text_and_no_pure_music() {
    let t = Some("[0]x".to_string());
    assert!(use_translation(true, &t, None));
    assert!(use_translation(true, &t, Some(false)));
    assert!(!use_translation(true, &t, Some(true)));
    assert!(!use_translation(false, &t, None));
    assert!(!use_translation(true, &Some(String::new()), None));
    assert!(!use_translation(true, &None, None));
}

#[test]
fn tag_lyric_merges_only_when_asked() {
    assert_eq!(tag_lyric("[0]a".into(), Some("[0]b".into()), true), "[0]a\n[0]b\n");
    assert_eq!(tag_lyric("[0]a".into(), Some("[0]b".into()), false), "[0]a");
}

#[test]
fn mp3_frames_in_order() {
    let frames = mp3_frames(&full_plan(TagFormat::Mp3), "text".into(), vec![1, 2], &song());
    assert_eq!(
        frames,
        vec![
            Mp3Frame::Lyrics { lang: "chi".into(), description: String::new(), text: "text".into() },
            Mp3Frame::Picture {
                mime_type: "image/jpeg".into(),
                kind: PictureKind::Media,
                description: "Cover".into(),
                data: vec![1, 2],
            },
            Mp3Frame::Album("Album".into()),
            Mp3Frame::Artist("Singer".into()),
        ]
    );
    let mut plan = full_plan(TagFormat::Mp3);
    plan.lyric = false;
    plan.cover = false;
    assert_eq!(mp3_frames(&plan, "t".into(), vec![], &song()).len(), 2);
}

#[test]
fn flac_edits_file_cover_by_system() {
    let plan = full_plan(TagFormat::Flac);
    let linux = flac_edits(&plan, "l".into(), vec![7], &song(), HostOs::Linux);
    assert_eq!(
        linux,
        vec![
            FlacEdit::Picture { mime_type: "image/jpeg".into(), kind: PictureKind::CoverFront, data: vec![7] },
            FlacEdit::Picture { mime_type: "image/jpeg".into(), kind: PictureKind::Media, data: vec![7] },
            FlacEdit::Lyrics("l".into()),
            FlacEdit::Album("Album".into()),
            FlacEdit::Artist("Singer".into()),
        ]
    );
    let windows = flac_edits(&plan, "l".into(), vec![7], &song(), HostOs::Windows);
    assert_eq!(windows.len(), 4);
    let other = flac_edits(&plan, "l".into(), vec![7], &song(), HostOs::Other);
    assert_eq!(other.len(), 3);
}

#[test]
fn finish_tagging_records_only_on_request() {
    let mut d = MusicDownload::new("1".into(), serde_json::Value::Null, "/m/".into());
    assert!(!d.finish_tagging(&song(), None));
    assert!(!d.finish_tagging(&song(), Some(false)));
    assert!(d.already_music.is_empty());
    assert!(d.finish_tagging(&song(), Some(true)));
    assert!(d.already_music.contains_key("1"));
}

fn tiny_png() -> Vec<u8> {
    let img = image::RgbImage::from_pixel(2, 2, image::Rgb([200, 10, 10]));
    let mut out = Vec::new();
    image::DynamicImage::ImageRgb8(img)
        .write_to(&mut std::io::Cursor::new(&mut out), image::ImageFormat::Png)
        .unwrap();
    out
}

#[test]
fn check_png_reencodes_png_as_jpeg() {
    let png = tiny_png();
    assert!(is_png(&png));
    let jpeg = check_png(&png).unwrap();
    assert_ne!(jpeg, png);
    assert_eq!(&jpeg[..2], &[0xff, 0xd8]);
}

#[test]
fn check_png_rejects_bytes_that_are_no_image() {
    assert_eq!(check_png(&vec![137, 1, 2, 3]), Err(CoverError::NotAnImage));
}

#[test]
fn cover_picture_keeps_non_png_data() {
    assert_eq!(cover_picture(vec![0xff, 0xd8, 1]), Some(vec![0xff, 0xd8, 1]));
    assert_eq!(cover_picture(vec![137, 0]), None);
    let converted = cover_picture(tiny_png()).unwrap();
    assert_eq!(converted, check_png(&tiny_png()).unwrap());
    assert_eq!(&converted[..2], &[0xff, 0xd8]);
}

#[test]
fn port_status_from_connection_outcome() {
    assert_eq!(port_status(ConnectOutcome::Connected), Some(true));
    assert_eq!(port_status(ConnectOutcome::Refused), Some(false));
    assert_eq!(port_status(ConnectOutcome::TimedOut), Some(false));
    assert_eq!(port_status(ConnectOutcome::Failed), None);
}

#[test]
fn init_starts_service_unless_port_is_open() {
    assert_eq!(init_step(Some(true), false), InitStep::AlreadyRunning);
    assert_eq!(init_step(Some(false), true), InitStep::Launch);
    assert_eq!(init_step(Some(false), false), InitStep::ApiMissing);
    assert_eq!(init_step(None, true), InitStep::Launch);
    assert_eq!(init_step(None, false), InitStep::ApiMissing);
    assert!(!init_succeeds(InitStep::ApiMissing));
    assert!(init_succeeds(InitStep::Launch));
    assert_eq!(launch_script("/api/"), "/api/app.js");
}

#[test]
fn commands_by_word() {
    assert_eq!(parse_command("down"), Command::Down);
    assert_eq!(parse_command("tag"), Command::Tag);
    assert_eq!(parse_command("Down"), Command::Unknown);
}

#[test]
fn all_settings_on_reads_up_to_the_first_switched_off() {
    assert_eq!(all_settings_on(&vec![]), Some(true));
    assert_eq!(all_settings_on(&vec![Some(true), Some(true)]), Some(true));
    assert_eq!(all_settings_on(&vec![Some(true), Some(false), None]), Some(false));
    assert_eq!(all_settings_on(&vec![Some(true), None, Some(false)]), None);
}
