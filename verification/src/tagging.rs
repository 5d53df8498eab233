//! What goes into the tags of a downloaded file: which parts the settings
//! ask for, the lyric with or without its translation, and the frames (MP3)
//! or edits (FLAC) that write them.
use vstd::prelude::*;

use crate::lyric::{lyric_mergeable, merged, merged_lyric};
use crate::music::{Music, MusicView};
use crate::text::push_str;

verus! {

/// The tag settings of one file format, as the option file gives them.
pub struct TagSettings {
    /// Whether every setting of the format is switched on.
    pub all_enabled: bool,
    pub lyric: bool,
    pub translation: bool,
    pub pic: bool,
    pub title: bool,
    pub artist: bool,
}

/// Whether every setting of a format is on, reading the settings in order as
/// flags (`None` for a setting that is not a flag) and stopping at the first
/// one that is off: `Some(true)` when all are on, `Some(false)` when one is off
/// before any setting that is not a flag, `None` when a setting that is not a
/// flag comes first.
pub open spec fn all_on(settings: Seq<Option<bool>>) -> Option<bool>
    decreases settings.len(),
{
    if settings.len() == 0 {
        Some(true)
    } else {
        match settings[0] {
            None => None,
            Some(false) => Some(false),
            Some(true) => all_on(settings.drop_first()),
        }
    }
}

/// `all_on` is `Some(true)` exactly when every setting is the flag `true`.
pub proof fn lemma_all_on_true(settings: Seq<Option<bool>>)
    ensures
        all_on(settings) == Some(true) <==> forall|i: int|
            0 <= i < settings.len() ==> #[trigger] settings[i] == Some(true),
    decreases settings.len(),
{
    if settings.len() > 0 {
        lemma_all_on_true(settings.drop_first());
        if forall|i: int| 0 <= i < settings.len() ==> #[trigger] settings[i] == Some(true) {
            assert forall|i: int| 0 <= i < settings.drop_first().len() implies #[trigger] settings.drop_first()[i]
                == Some(true) by {
                assert(settings.drop_first()[i] == settings[i + 1]);
            }
        }
        if all_on(settings) == Some(true) {
            assert forall|i: int| 0 <= i < settings.len() implies #[trigger] settings[i] == Some(
                true,
            ) by {
                if i > 0 {
                    assert(settings[i] == settings.drop_first()[i - 1]);
                }
            }
        }
    }
}

/// Whether every setting of a format is on, read in order up to the first
/// one that is off.
pub fn all_settings_on(settings: &Vec<Option<bool>>) -> (r: Option<bool>)
    ensures
        r == all_on(settings@),
{
    let mut i: usize = 0;
    assert(settings@.skip(0) =~= settings@);
    while i < settings.len()
        invariant
            i <= settings.len(),
            all_on(settings@) == all_on(settings@.skip(i as int)),
        decreases settings.len() - i,
    {
        assert(settings@.skip(i as int)[0] == settings@[i as int]);
        assert(settings@.skip(i as int).drop_first() =~= settings@.skip(i + 1));
        match settings[i] {
            None => {
                return None;
            },
            Some(false) => {
                return Some(false);
            },
            Some(true) => {},
        }
        i = i + 1;
    }
    assert(settings@.skip(i as int) =~= Seq::<Option<bool>>::empty());
    Some(true)
}

/// The file formats whose tags are written.
#[derive(Debug, PartialEq, Eq, Clone, Copy)]
pub enum TagFormat {
    Mp3,
    Flac,
    /// Any other file type: no tag is written.
    Other,
}

/// The tag format for a file type.
pub open spec fn format_of(file_type: Seq<char>) -> TagFormat {
    if file_type == "mp3"@ {
        TagFormat::Mp3
    } else if file_type == "flac"@ {
        TagFormat::Flac
    } else {
        TagFormat::Other
    }
}

/// The tag format for a file type.
pub fn tag_format(file_type: &str) -> (f: TagFormat)
    ensures
        f == format_of(file_type@),
{
    let mut mp3 = String::new();
    push_str(&mut mp3, "mp3");
    let mut flac = String::new();
    push_str(&mut flac, "flac");
    assert(mp3@ =~= "mp3"@);
    assert(flac@ =~= "flac"@);
    if crate::music::str_eq(file_type, mp3.as_str()) {
        TagFormat::Mp3
    } else if crate::music::str_eq(file_type, flac.as_str()) {
        TagFormat::Flac
    } else {
        TagFormat::Other
    }
}

/// The parts of a tag to write.
#[derive(Debug, PartialEq, Eq, Clone, Copy)]
pub struct TagPlan {
    pub format: TagFormat,
    pub lyric: bool,
    /// Whether the lyric may carry its translation.
    pub translation: bool,
    pub cover: bool,
    pub album: bool,
    pub artist: bool,
}

/// What tagging a file comes to.
#[derive(Debug, PartialEq, Eq, Clone, Copy)]
pub enum TagDecision {
    /// Leave the file and the download record alone.
    Skip,
    /// Write these parts of the tag (nothing for a format without tags).
    Write(TagPlan),
}

/// What tagging a file of format `format` comes to under `settings`: an MP3
/// or FLAC file is left alone unless every setting of its format is on (and an
/// MP3 file also when the translation is on but the lyric is off); an MP3 tag
/// takes the album and the artist both by the `title` setting.
pub open spec fn decision_for(format: TagFormat, settings: TagSettings) -> TagDecision {
    match format {
        TagFormat::Mp3 => if !settings.all_enabled || (settings.translation && !settings.lyric) {
            TagDecision::Skip
        } else {
            TagDecision::Write(
                TagPlan {
                    format: TagFormat::Mp3,
                    lyric: settings.lyric,
                    translation: settings.translation,
                    cover: settings.pic,
                    album: settings.title,
                    artist: settings.title,
                },
            )
        },
        TagFormat::Flac => if !settings.all_enabled {
            TagDecision::Skip
        } else {
            TagDecision::Write(
                TagPlan {
                    format: TagFormat::Flac,
                    lyric: settings.lyric,
                    translation: settings.translation,
                    cover: settings.pic,
                    album: settings.title,
                    artist: settings.artist,
                },
            )
        },
        TagFormat::Other => TagDecision::Write(
            TagPlan {
                format: TagFormat::Other,
                lyric: false,
                translation: false,
                cover: false,
                album: false,
                artist: false,
            },
        ),
    }
}

/// An MP3 file is left alone exactly when a setting is off, or when the
/// translation is on but the lyric is off; otherwise it gets the lyric, the
/// translation and the cover as their settings say, and the album and the
/// artist both as `title` says. In particular, with every setting on and the
/// lyric on, its tag is written.
pub proof fn lemma_mp3_decision(s: TagSettings)
    ensures
        decision_for(TagFormat::Mp3, s) == TagDecision::Skip <==> (!s.all_enabled || (s.translation
            && !s.lyric)),
        s.all_enabled && s.lyric ==> decision_for(TagFormat::Mp3, s) == TagDecision::Write(
            TagPlan {
                format: TagFormat::Mp3,
                lyric: true,
                translation: s.translation,
                cover: s.pic,
                album: s.title,
                artist: s.title,
            },
        ),
        s.all_enabled && !s.translation ==> decision_for(TagFormat::Mp3, s) is Write,
{
}

/// A FLAC file is left alone exactly when a setting is off; otherwise each
/// part is written as its own setting says.
pub proof fn lemma_flac_decision(s: TagSettings)
    ensures
        decision_for(TagFormat::Flac, s) == TagDecision::Skip <==> !s.all_enabled,
        s.all_enabled ==> decision_for(TagFormat::Flac, s) == TagDecision::Write(
            TagPlan {
                format: TagFormat::Flac,
                lyric: s.lyric,
                translation: s.translation,
                cover: s.pic,
                album: s.title,
                artist: s.artist,
            },
        ),
        decision_for(TagFormat::Other, s) is Write,
{
}

/// What tagging a file of format `format` comes to under `settings`.
pub fn plan_tags(format: TagFormat, settings: &TagSettings) -> (d: TagDecision)
    ensures
        d == decision_for(format, *settings),
        format == TagFormat::Mp3 ==> (d == TagDecision::Skip <==> (!settings.all_enabled || (
        settings.translation && !settings.lyric))),
        format == TagFormat::Mp3 && settings.all_enabled && settings.lyric ==> d
            == TagDecision::Write(
            TagPlan {
                format: TagFormat::Mp3,
                lyric: true,
                translation: settings.translation,
                cover: settings.pic,
                album: settings.title,
                artist: settings.title,
            },
        ),
        format == TagFormat::Flac ==> (d == TagDecision::Skip <==> !settings.all_enabled),
        format == TagFormat::Flac && settings.all_enabled ==> d == TagDecision::Write(
            TagPlan {
                format: TagFormat::Flac,
                lyric: settings.lyric,
                translation: settings.translation,
                cover: settings.pic,
                album: settings.title,
                artist: settings.artist,
            },
        ),
        format == TagFormat::Other ==> d is Write && !d->0.lyric && !d->0.cover && !d->0.album
            && !d->0.artist,
{
    proof {
        lemma_mp3_decision(*settings);
        lemma_flac_decision(*settings);
    }
    match format {
        TagFormat::Mp3 => {
            if !settings.all_enabled || (settings.translation && !settings.lyric) {
                TagDecision::Skip
            } else {
                TagDecision::Write(
                    TagPlan {
                        format: TagFormat::Mp3,
                        lyric: settings.lyric,
                        translation: settings.translation,
                        cover: settings.pic,
                        album: settings.title,
                        artist: settings.title,
                    },
                )
            }
        },
        TagFormat::Flac => {
            if !settings.all_enabled {
                TagDecision::Skip
            } else {
                TagDecision::Write(
                    TagPlan {
                        format: TagFormat::Flac,
                        lyric: settings.lyric,
                        translation: settings.translation,
                        cover: settings.pic,
                        album: settings.title,
                        artist: settings.artist,
                    },
                )
            }
        },
        TagFormat::Other => TagDecision::Write(
            TagPlan {
                format: TagFormat::Other,
                lyric: false,
                translation: false,
                cover: false,
                album: false,
                artist: false,
            },
        ),
    }
}

/// Whether the translation goes into the lyric: the settings allow it, the
/// lyric service gave a translation that is not empty, and did not mark the
/// song as pure music.
pub open spec fn translation_wanted(
    allowed: bool,
    tlyric: Option<Seq<char>>,
    pure_music: Option<bool>,
) -> bool {
    &&& allowed
    &&& tlyric matches Some(t) && t.len() > 0
    &&& pure_music != Some(true)
}

/// Whether the translation goes into the lyric.
pub fn use_translation(allowed: bool, tlyric: &Option<String>, pure_music: Option<bool>) -> (b:
    bool)
    ensures
        b == translation_wanted(
            allowed,
            match tlyric {
                Some(t) => Some(t@),
                None => None,
            },
            pure_music,
        ),
{
    let given = match tlyric {
        Some(t) => crate::text::chars_of(t.as_str()).len() > 0,
        None => false,
    };
    allowed && given && !(pure_music == Some(true))
}

/// The lyric for the tag: merged with the translation when `merge` is set.
pub fn tag_lyric(lrc: String, tlyric: Option<String>, merge: bool) -> (text: String)
    requires
        merge ==> (tlyric matches Some(t) && lyric_mergeable(lrc@, t@)),
    ensures
        merge ==> (tlyric matches Some(t) && text@ == merged(lrc@, t@)),
        !merge ==> text@ == lrc@,
{
    if merge {
        match tlyric {
            Some(t) => merged_lyric(lrc, t),
            None => lrc,
        }
    } else {
        lrc
    }
}

/// How a picture is filed in a tag.
#[derive(Debug, PartialEq, Eq, Clone, Copy)]
pub enum PictureKind {
    CoverFront,
    Media,
}

/// One frame of an MP3 tag.
#[derive(Debug, PartialEq, Eq)]
pub enum Mp3Frame {
    /// An unsynchronised lyric (`USLT`).
    Lyrics { lang: String, description: String, text: String },
    /// An attached picture (`APIC`).
    Picture { mime_type: String, kind: PictureKind, description: String, data: Vec<u8> },
    Album(String),
    Artist(String),
}

/// The text of each part of an MP3 frame.
pub enum Mp3FrameView {
    Lyrics { lang: Seq<char>, description: Seq<char>, text: Seq<char> },
    Picture { mime_type: Seq<char>, kind: PictureKind, description: Seq<char>, data: Seq<u8> },
    Album(Seq<char>),
    Artist(Seq<char>),
}

impl View for Mp3Frame {
    type V = Mp3FrameView;

    open spec fn view(&self) -> Mp3FrameView {
        match self {
            Mp3Frame::Lyrics { lang, description, text } => Mp3FrameView::Lyrics {
                lang: lang@,
                description: description@,
                text: text@,
            },
            Mp3Frame::Picture { mime_type, kind, description, data } => Mp3FrameView::Picture {
                mime_type: mime_type@,
                kind: *kind,
                description: description@,
                data: data@,
            },
            Mp3Frame::Album(a) => Mp3FrameView::Album(a@),
            Mp3Frame::Artist(a) => Mp3FrameView::Artist(a@),
        }
    }
}

/// The frames of an MP3 tag, in order: the lyric (in Chinese, no
/// description), the cover as JPEG media picture described `Cover`, the album,
/// the artist; each only when the plan asks for it.
pub open spec fn mp3_frames_for(
    plan: TagPlan,
    lyric: Seq<char>,
    cover: Seq<u8>,
    song: MusicView,
) -> Seq<Mp3FrameView> {
    (if plan.lyric {
        seq![Mp3FrameView::Lyrics { lang: "chi"@, description: seq![], text: lyric }]
    } else {
        seq![]
    }) + (if plan.cover {
        seq![
            Mp3FrameView::Picture {
                mime_type: "image/jpeg"@,
                kind: PictureKind::Media,
                description: "Cover"@,
                data: cover,
            },
        ]
    } else {
        seq![]
    }) + (if plan.album {
        seq![Mp3FrameView::Album(song.album)]
    } else {
        seq![]
    }) + (if plan.artist {
        seq![Mp3FrameView::Artist(song.singer)]
    } else {
        seq![]
    })
}

/// Every picture frame of an MP3 tag is the JPEG cover that was given, filed
/// as media; there is one exactly when the plan asks for the cover.
pub proof fn lemma_mp3_cover_frames(plan: TagPlan, lyric: Seq<char>, cover: Seq<u8>, song: MusicView)
    ensures
        forall|i: int|
            0 <= i < mp3_frames_for(plan, lyric, cover, song).len() ==> ((#[trigger] mp3_frames_for(
                plan,
                lyric,
                cover,
                song,
            )[i]) matches Mp3FrameView::Picture { mime_type, kind, description, data } ==> data
                == cover && mime_type == "image/jpeg"@ && kind == PictureKind::Media),
        plan.cover <==> exists|i: int|
            0 <= i < mp3_frames_for(plan, lyric, cover, song).len() && (#[trigger] mp3_frames_for(
                plan,
                lyric,
                cover,
                song,
            )[i]) is Picture,
{
    let f = mp3_frames_for(plan, lyric, cover, song);
    let a: Seq<Mp3FrameView> = if plan.lyric {
        seq![Mp3FrameView::Lyrics { lang: "chi"@, description: seq![], text: lyric }]
    } else {
        seq![]
    };
    let b: Seq<Mp3FrameView> = if plan.cover {
        seq![
            Mp3FrameView::Picture {
                mime_type: "image/jpeg"@,
                kind: PictureKind::Media,
                description: "Cover"@,
                data: cover,
            },
        ]
    } else {
        seq![]
    };
    let c: Seq<Mp3FrameView> = if plan.album {
        seq![Mp3FrameView::Album(song.album)]
    } else {
        seq![]
    };
    let d: Seq<Mp3FrameView> = if plan.artist {
        seq![Mp3FrameView::Artist(song.singer)]
    } else {
        seq![]
    };
    assert(f == a + b + c + d);
    assert forall|i: int| 0 <= i < f.len() implies ((#[trigger] f[i]) matches Mp3FrameView::Picture {
        mime_type,
        kind,
        description,
        data,
    } ==> data == cover && mime_type == "image/jpeg"@ && kind == PictureKind::Media) by {
        if i < a.len() {
            assert(f[i] == a[i]);
        } else if i < a.len() + b.len() {
            assert(f[i] == b[i - a.len()]);
        } else if i < a.len() + b.len() + c.len() {
            assert(f[i] == c[i - a.len() - b.len()]);
        } else {
            assert(f[i] == d[i - a.len() - b.len() - c.len()]);
        }
    }
    if plan.cover {
        assert(f[a.len() as int] == b[0]);
    } else {
        assert forall|i: int| 0 <= i < f.len() implies !((#[trigger] f[i]) is Picture) by {
            if i < a.len() {
                assert(f[i] == a[i]);
            } else if i < a.len() + c.len() {
                assert(f[i] == c[i - a.len()]);
            } else {
                assert(f[i] == d[i - a.len() - c.len()]);
            }
        }
    }
}

/// A string holding the text `lit`.
fn text_of(lit: &str) -> (s: String)
    ensures
        s@ == lit@,
{
    let mut s = String::new();
    push_str(&mut s, lit);
    assert(s@ =~= lit@);
    s
}

/// The frames of an MP3 tag for `song`.
pub fn mp3_frames(plan: &TagPlan, lyric: String, cover: Vec<u8>, song: &Music) -> (frames: Vec<
    Mp3Frame,
>)
    ensures
        frames@.map_values(|f: Mp3Frame| f@) == mp3_frames_for(*plan, lyric@, cover@, song@),
        forall|i: int|
            0 <= i < frames@.len() ==> ((#[trigger] frames@[i])@ matches Mp3FrameView::Picture {
                mime_type,
                kind,
                description,
                data,
            } ==> data == cover@ && mime_type == "image/jpeg"@ && kind == PictureKind::Media),
        plan.cover ==> exists|i: int|
            0 <= i < frames@.len() && (#[trigger] frames@[i])@ is Picture,
        !plan.cover ==> forall|i: int| 0 <= i < frames@.len() ==> !((#[trigger] frames@[i])@ is Picture),
{
    let mut frames: Vec<Mp3Frame> = Vec::new();
    let ghost want = mp3_frames_for(*plan, lyric@, cover@, song@);
    let ghost lyric_v = lyric@;
    let ghost cover_v = cover@;
    if plan.lyric {
        frames.push(
            Mp3Frame::Lyrics { lang: text_of("chi"), description: String::new(), text: lyric },
        );
    }
    if plan.cover {
        frames.push(
            Mp3Frame::Picture {
                mime_type: text_of("image/jpeg"),
                kind: PictureKind::Media,
                description: text_of("Cover"),
                data: cover,
            },
        );
    }
    if plan.album {
        frames.push(Mp3Frame::Album(song.album.clone()));
    }
    if plan.artist {
        frames.push(Mp3Frame::Artist(song.singer.clone()));
    }
    assert(frames@.map_values(|f: Mp3Frame| f@) =~= mp3_frames_for(
        *plan,
        lyric_v,
        cover_v,
        song@,
    ));
    proof {
        lemma_mp3_cover_frames(*plan, lyric_v, cover_v, song@);
        let views = frames@.map_values(|f: Mp3Frame| f@);
        assert forall|i: int| 0 <= i < frames@.len() implies #[trigger] frames@[i]@ == views[i] by {}
        if plan.cover {
            let i = choose|i: int| 0 <= i < views.len() && views[i] is Picture;
            assert(frames@[i]@ == views[i]);
        }
    }
    frames
}

/// The system the program runs on, as far as the FLAC pictures depend on it.
#[derive(Debug, PartialEq, Eq, Clone, Copy)]
pub enum HostOs {
    Windows,
    Linux,
    Other,
}

/// The ways the cover is filed in a FLAC tag: as media on Windows, as front
/// cover and as media on Linux, not at all elsewhere.
pub open spec fn flac_picture_kinds(os: HostOs) -> Seq<PictureKind> {
    match os {
        HostOs::Windows => seq![PictureKind::Media],
        HostOs::Linux => seq![PictureKind::CoverFront, PictureKind::Media],
        HostOs::Other => seq![],
    }
}

/// One change to a FLAC tag.
#[derive(Debug, PartialEq, Eq)]
pub enum FlacEdit {
    Picture { mime_type: String, kind: PictureKind, data: Vec<u8> },
    Lyrics(String),
    Album(String),
    Artist(String),
}

/// The text of each part of a FLAC change.
pub enum FlacEditView {
    Picture { mime_type: Seq<char>, kind: PictureKind, data: Seq<u8> },
    Lyrics(Seq<char>),
    Album(Seq<char>),
    Artist(Seq<char>),
}

impl View for FlacEdit {
    type V = FlacEditView;

    open spec fn view(&self) -> FlacEditView {
        match self {
            FlacEdit::Picture { mime_type, kind, data } => FlacEditView::Picture {
                mime_type: mime_type@,
                kind: *kind,
                data: data@,
            },
            FlacEdit::Lyrics(t) => FlacEditView::Lyrics(t@),
            FlacEdit::Album(a) => FlacEditView::Album(a@),
            FlacEdit::Artist(a) => FlacEditView::Artist(a@),
        }
    }
}

/// The changes to a FLAC tag, in order: the cover (as JPEG) once for each way
/// the system files it, the lyric, the album, the artist; each only when the
/// plan asks for it.
pub open spec fn flac_edits_for(
    plan: TagPlan,
    lyric: Seq<char>,
    cover: Seq<u8>,
    song: MusicView,
    os: HostOs,
) -> Seq<FlacEditView> {
    (if plan.cover {
        flac_picture_kinds(os).map_values(
            |k: PictureKind| FlacEditView::Picture { mime_type: "image/jpeg"@, kind: k, data: cover },
        )
    } else {
        seq![]
    }) + (if plan.lyric {
        seq![FlacEditView::Lyrics(lyric)]
    } else {
        seq![]
    }) + (if plan.album {
        seq![FlacEditView::Album(song.album)]
    } else {
        seq![]
    }) + (if plan.artist {
        seq![FlacEditView::Artist(song.singer)]
    } else {
        seq![]
    })
}

/// Every picture of a FLAC tag is the JPEG cover that was given, on every
/// system: one as media on Windows, one as front cover and one as media on
/// Linux, first among the changes when the plan asks for the cover.
pub proof fn lemma_flac_cover_edits(
    plan: TagPlan,
    lyric: Seq<char>,
    cover: Seq<u8>,
    song: MusicView,
    os: HostOs,
)
    ensures
        forall|i: int|
            0 <= i < flac_edits_for(plan, lyric, cover, song, os).len() ==> ((
            #[trigger] flac_edits_for(plan, lyric, cover, song, os)[i]) matches FlacEditView::Picture {
                mime_type,
                kind,
                data,
            } ==> data == cover && mime_type == "image/jpeg"@),
        plan.cover && os == HostOs::Windows ==> flac_edits_for(plan, lyric, cover, song, os)[0]
            == (FlacEditView::Picture { mime_type: "image/jpeg"@, kind: PictureKind::Media, data: cover }),
        plan.cover && os == HostOs::Linux ==> flac_edits_for(plan, lyric, cover, song, os)[0]
            == (FlacEditView::Picture {
            mime_type: "image/jpeg"@,
            kind: PictureKind::CoverFront,
            data: cover,
        }) && flac_edits_for(plan, lyric, cover, song, os)[1] == (FlacEditView::Picture {
            mime_type: "image/jpeg"@,
            kind: PictureKind::Media,
            data: cover,
        }),
{
    let f = flac_edits_for(plan, lyric, cover, song, os);
    let p: Seq<FlacEditView> = if plan.cover {
        flac_picture_kinds(os).map_values(
            |k: PictureKind| FlacEditView::Picture { mime_type: "image/jpeg"@, kind: k, data: cover },
        )
    } else {
        seq![]
    };
    let b: Seq<FlacEditView> = if plan.lyric {
        seq![FlacEditView::Lyrics(lyric)]
    } else {
        seq![]
    };
    let c: Seq<FlacEditView> = if plan.album {
        seq![FlacEditView::Album(song.album)]
    } else {
        seq![]
    };
    let d: Seq<FlacEditView> = if plan.artist {
        seq![FlacEditView::Artist(song.singer)]
    } else {
        seq![]
    };
    assert(f == p + b + c + d);
    assert forall|i: int| 0 <= i < f.len() implies ((#[trigger] f[i]) matches FlacEditView::Picture {
        mime_type,
        kind,
        data,
    } ==> data == cover && mime_type == "image/jpeg"@) by {
        if i < p.len() {
            assert(f[i] == p[i]);
        } else if i < p.len() + b.len() {
            assert(f[i] == b[i - p.len()]);
        } else if i < p.len() + b.len() + c.len() {
            assert(f[i] == c[i - p.len() - b.len()]);
        } else {
            assert(f[i] == d[i - p.len() - b.len() - c.len()]);
        }
    }
    if plan.cover && os != HostOs::Other {
        assert(f[0] == p[0]);
        if os == HostOs::Linux {
            assert(f[1] == p[1]);
        }
    }
}

/// The changes to a FLAC tag for `song`.
pub fn flac_edits(plan: &TagPlan, lyric: String, cover: Vec<u8>, song: &Music, os: HostOs) -> (edits:
    Vec<FlacEdit>)
    ensures
        edits@.map_values(|e: FlacEdit| e@) == flac_edits_for(*plan, lyric@, cover@, song@, os),
        forall|i: int|
            0 <= i < edits@.len() ==> ((#[trigger] edits@[i])@ matches FlacEditView::Picture {
                mime_type,
                kind,
                data,
            } ==> data == cover@ && mime_type == "image/jpeg"@),
        plan.cover && os == HostOs::Windows ==> edits@[0]@ == (FlacEditView::Picture {
            mime_type: "image/jpeg"@,
            kind: PictureKind::Media,
            data: cover@,
        }),
        plan.cover && os == HostOs::Linux ==> edits@[0]@ == (FlacEditView::Picture {
            mime_type: "image/jpeg"@,
            kind: PictureKind::CoverFront,
            data: cover@,
        }) && edits@[1]@ == (FlacEditView::Picture {
            mime_type: "image/jpeg"@,
            kind: PictureKind::Media,
            data: cover@,
        }),
{
    let mut edits: Vec<FlacEdit> = Vec::new();
    let ghost lyric_v = lyric@;
    let ghost cover_v = cover@;
    if plan.cover {
        match os {
            HostOs::Windows => {
                edits.push(
                    FlacEdit::Picture {
                        mime_type: text_of("image/jpeg"),
                        kind: PictureKind::Media,
                        data: cover,
                    },
                );
            },
            HostOs::Linux => {
                edits.push(
                    FlacEdit::Picture {
                        mime_type: text_of("image/jpeg"),
                        kind: PictureKind::CoverFront,
                        data: copy_bytes(&cover),
                    },
                );
                edits.push(
                    FlacEdit::Picture {
                        mime_type: text_of("image/jpeg"),
                        kind: PictureKind::Media,
                        data: cover,
                    },
                );
            },
            HostOs::Other => {},
        }
    }
    assert(edits@.map_values(|e: FlacEdit| e@) =~= (if plan.cover {
        flac_picture_kinds(os).map_values(
            |k: PictureKind|
                FlacEditView::Picture { mime_type: "image/jpeg"@, kind: k, data: cover_v },
        )
    } else {
        seq![]
    }));
    let ghost pictures = edits@.map_values(|e: FlacEdit| e@);
    if plan.lyric {
        edits.push(FlacEdit::Lyrics(lyric));
    }
    if plan.album {
        edits.push(FlacEdit::Album(song.album.clone()));
    }
    if plan.artist {
        edits.push(FlacEdit::Artist(song.singer.clone()));
    }
    assert(edits@.map_values(|e: FlacEdit| e@) =~= flac_edits_for(
        *plan,
        lyric_v,
        cover_v,
        song@,
        os,
    ));
    proof {
        lemma_flac_cover_edits(*plan, lyric_v, cover_v, song@, os);
        let views = edits@.map_values(|e: FlacEdit| e@);
        assert forall|i: int| 0 <= i < edits@.len() implies #[trigger] edits@[i]@ == views[i] by {}
    }
    edits
}

/// A copy of the bytes.
fn copy_bytes(data: &Vec<u8>) -> (out: Vec<u8>)
    ensures
        out@ == data@,
{
    let mut out: Vec<u8> = Vec::new();
    let mut i: usize = 0;
    while i < data.len()
        invariant
            i <= data.len(),
            out@ =~= data@.take(i as int),
        decreases data.len() - i,
    {
        out.push(data[i]);
        i = i + 1;
    }
    assert(data@.take(i as int) =~= data@);
    out
}

/// Whether a tagged song is then recorded as downloaded: only when asked to.
pub open spec fn records_after_tagging(auto_save: Option<bool>) -> bool {
    auto_save == Some(true)
}

impl crate::playlist::MusicDownload {
    /// After a file was tagged: records `song` as downloaded when `auto_save`
    /// asks for it, and tells whether it did (then the info file is to be
    /// written again).
    pub fn finish_tagging(&mut self, song: &Music, auto_save: Option<bool>) -> (saved: bool)
        ensures
            saved == records_after_tagging(auto_save),
            saved ==> final(self).already_music@ == old(self).already_music@.insert(
                song@.id,
                song@,
            ),
            !saved ==> final(self).already_music@ == old(self).already_music@,
            final(self).all_music@ == old(self).all_music@,
            final(self).require_music@ == old(self).require_music@,
            final(self).palylist_id == old(self).palylist_id,
            final(self).playlist_name == old(self).playlist_name,
            final(self).playlist_pic_url == old(self).playlist_pic_url,
            final(self).save_path == old(self).save_path,
            final(self).music_info_path == old(self).music_info_path,
            final(self).option == old(self).option,
    {
        match auto_save {
            Some(b) => {
                if b {
                    self.record_downloaded(song);
                    true
                } else {
                    false
                }
            },
            None => false,
        }
    }
}

} // verus!
