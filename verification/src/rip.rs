//! Ripping a disc: what is on it, what is chosen, and where it goes.
use vstd::prelude::*;

use self::analysis::{AnalysedTitle, AudioStreamInfo, ChapterMark, TitleAnalysis};
use self::tui::{AudioSelection, AudioSelectionAction, MediaChoice, MovieChoice, ShowChoice};
use crate::config::Config;
use crate::transcode::config::{
    AudioAction, AudioConfig, ChapterInfo, SubtitleConfig, VideoConfig,
};
use crate::transcode::TranscodeJob;
use crate::{config, gather, list, text, transcode};

pub mod analysis;
pub mod dvd_analysis;
pub mod jellyfin;
pub mod tui;

verus! {

// --- probing ---

/// The kind of a stream in a file.
#[derive(Debug, Clone, Copy, PartialEq, Eq, Structural)]
pub enum Medium {
    Audio,
    Subtitle,
    Other,
}

/// A stream as the demuxer reports it.
#[derive(Debug)]
pub struct StreamProbe {
    pub index: usize,
    pub medium: Medium,
    pub language: Option<String>,
    pub forced: bool,
}

/// The actual stream indices of a file for each type, with the stream language
/// metadata. This avoids hardcoding assumptions about stream ordering which can
/// differ between the disc's clip info and the demuxer.
#[derive(Debug)]
pub struct ProbedStreams {
    /// (stream index, language) for each audio stream, in order
    pub audio: Vec<(usize, Option<String>)>,
    /// Probed subtitle streams with forced disposition detection
    pub subtitle: Vec<ProbedSubtitleStream>,
}

/// What a `ProbedStreams` says.
pub ghost struct ProbedModel {
    pub audio: Seq<(usize, Option<Seq<char>>)>,
    pub subtitle: Seq<ProbedSubtitleModel>,
}

impl DeepView for ProbedStreams {
    type V = ProbedModel;

    open spec fn deep_view(&self) -> ProbedModel {
        ProbedModel { audio: self.audio.deep_view(), subtitle: self.subtitle.deep_view() }
    }
}

#[derive(Debug)]
pub struct ProbedSubtitleStream {
    pub ffmpeg_index: usize,
    pub language: Option<String>,
    pub forced: bool,
}

/// What a `ProbedSubtitleStream` says.
pub ghost struct ProbedSubtitleModel {
    pub ffmpeg_index: usize,
    pub language: Option<Seq<char>>,
    pub forced: bool,
}

impl DeepView for ProbedSubtitleStream {
    type V = ProbedSubtitleModel;

    open spec fn deep_view(&self) -> ProbedSubtitleModel {
        ProbedSubtitleModel {
            ffmpeg_index: self.ffmpeg_index,
            language: self.language.deep_view(),
            forced: self.forced,
        }
    }
}

/// The audio and subtitle streams among some streams, in order.
pub open spec fn sorted_streams(streams: Seq<StreamProbe>) -> ProbedModel
    decreases streams.len(),
{
    if streams.len() == 0 {
        ProbedModel { audio: Seq::empty(), subtitle: Seq::empty() }
    } else {
        let before = sorted_streams(streams.drop_last());
        let s = streams.last();
        match s.medium {
            Medium::Audio => ProbedModel {
                audio: before.audio.push((s.index, s.language.deep_view())),
                ..before
            },
            Medium::Subtitle => ProbedModel {
                subtitle: before.subtitle.push(
                    ProbedSubtitleModel {
                        ffmpeg_index: s.index,
                        language: s.language.deep_view(),
                        forced: s.forced,
                    },
                ),
                ..before
            },
            Medium::Other => before,
        }
    }
}

/// The audio and subtitle streams of a file.
pub fn probe_input_streams(streams: &Vec<StreamProbe>) -> (r: ProbedStreams)
    ensures
        r.deep_view() == sorted_streams(streams@),
{
    let mut audio: Vec<(usize, Option<String>)> = list::empty();
    let mut subtitle: Vec<ProbedSubtitleStream> = list::empty();
    let mut i: usize = 0;
    while i < streams.len()
        invariant
            i <= streams.len(),
            audio.deep_view() == sorted_streams(streams@.take(i as int)).audio,
            subtitle.deep_view() == sorted_streams(streams@.take(i as int)).subtitle,
        decreases streams.len() - i,
    {
        let s = &streams[i];
        assert(streams@.take(i + 1).drop_last() =~= streams@.take(i as int));
        match s.medium {
            Medium::Audio => {
                list::push(&mut audio, (s.index, text::copy_opt(&s.language)));
            },
            Medium::Subtitle => {
                list::push(
                    &mut subtitle,
                    ProbedSubtitleStream {
                        ffmpeg_index: s.index,
                        language: text::copy_opt(&s.language),
                        forced: s.forced,
                    },
                );
            },
            Medium::Other => {},
        }
        i = i + 1;
    }
    assert(streams@.take(i as int) =~= streams@);
    ProbedStreams { audio, subtitle }
}

// --- track names ---

/// How often a language occurs among the first `n`.
pub open spec fn occurrences(languages: Seq<Seq<char>>, lang: Seq<char>, n: int) -> nat
    decreases n,
{
    if n <= 0 {
        0
    } else {
        occurrences(languages, lang, n - 1) + if languages[n - 1] == lang {
            1nat
        } else {
            0
        }
    }
}

/// Does the language at a place occur more than once?
pub open spec fn repeats(languages: Seq<Seq<char>>, i: int) -> bool {
    occurrences(languages, languages[i], languages.len() as int) > 1
}

/// The name of a track: its language, and where the language occurs more than
/// once, its codec behind it, or from the second track on its number.
pub open spec fn track_name(languages: Seq<Seq<char>>, labels: Seq<Seq<char>>, i: int) -> Seq<
    char,
> {
    let lang = languages[i];
    let seen = occurrences(languages, lang, i + 1);
    if repeats(languages, i) {
        if labels[i].len() > 0 {
            lang + " ("@ + labels[i] + ")"@
        } else if seen > 1 {
            lang + " "@ + text::decimal(seen)
        } else {
            lang
        }
    } else {
        lang
    }
}

/// The names of some tracks.
pub open spec fn track_names(languages: Seq<Seq<char>>, labels: Seq<Seq<char>>) -> Seq<Seq<char>> {
    Seq::new(languages.len(), |i: int| track_name(languages, labels, i))
}

fn count_language(languages: &Vec<String>, lang: &String, n: usize) -> (r: usize)
    requires
        n <= languages.len(),
    ensures
        r == occurrences(languages.deep_view(), lang@, n as int),
{
    let ghost models = languages.deep_view();
    let mut count: usize = 0;
    let mut i: usize = 0;
    while i < n
        invariant
            i <= n <= languages.len(),
            models == languages.deep_view(),
            count == occurrences(models, lang@, i as int),
            count <= i,
        decreases n - i,
    {
        assert(models[i as int] == languages[i as int]@);
        if text::same_text(languages[i].as_str(), lang.as_str()) {
            count = count + 1;
        }
        i = i + 1;
    }
    count
}

/// Generate track names with duplicate language numbering.
/// E.g. ["English", "French", "English 2"] or ["English (TrueHD)", "English (AC-3)"]
pub fn make_track_names(languages: &Vec<String>, codec_labels: &Vec<String>) -> (r: Vec<String>)
    requires
        forall|i: int|
            0 <= i < languages.len() && repeats(languages.deep_view(), i) ==> i
                < codec_labels.len(),
    ensures
        r.deep_view() == track_names(languages.deep_view(), codec_labels.deep_view()),
{
    let ghost langs = languages.deep_view();
    let ghost labels = codec_labels.deep_view();
    let ghost all = track_names(langs, labels);
    let mut names: Vec<String> = list::empty();
    let mut i: usize = 0;
    while i < languages.len()
        invariant
            i <= languages.len(),
            forall|k: int| 0 <= k < languages.len() && repeats(langs, k) ==> k < codec_labels.len(),
            langs == languages.deep_view(),
            labels == codec_labels.deep_view(),
            all == track_names(langs, labels),
            names.deep_view() == all.take(i as int),
        decreases languages.len() - i,
    {
        let lang = &languages[i];
        assert(langs[i as int] == lang@);
        let mut name = lang.clone();
        if count_language(languages, lang, languages.len()) > 1 {
            assert(repeats(langs, i as int));
            assert(labels[i as int] == codec_labels[i as int]@);
            // Use codec label to disambiguate if available
            if text::chars_of(codec_labels[i].as_str()).len() > 0 {
                name.append(" (");
                name.append(codec_labels[i].as_str());
                name.append(")");
            } else {
                let seen: usize = count_language(languages, lang, i + 1);
                if seen > 1 {
                    name.append(" ");
                    text::push_decimal(&mut name, seen as u64);
                }
            }
        }
        list::push(&mut names, name);
        assert(names.deep_view() =~= all.take(i + 1));
        i = i + 1;
    }
    assert(all.take(i as int) =~= all);
    names
}

proof fn lemma_occurrences_grow(languages: Seq<Seq<char>>, lang: Seq<char>, m: int, n: int)
    requires
        0 <= m <= n <= languages.len(),
    ensures
        occurrences(languages, lang, m) <= occurrences(languages, lang, n),
        m < n && languages[n - 1] == lang ==> occurrences(languages, lang, m) < occurrences(
            languages,
            lang,
            n,
        ),
    decreases n,
{
    if m < n {
        lemma_occurrences_grow(languages, lang, m, n - 1);
    }
}

proof fn lemma_split_at_space(a: Seq<char>, x: Seq<char>, b: Seq<char>, y: Seq<char>)
    requires
        !a.contains(' '),
        !b.contains(' '),
        a + " "@ + x == b + " "@ + y,
    ensures
        a == b,
        x == y,
{
    reveal_strlit(" ");
    let s = a + " "@ + x;
    assert(s[a.len() as int] == ' ');
    let t = b + " "@ + y;
    assert(t[b.len() as int] == ' ');
    if a.len() < b.len() {
        assert(t[a.len() as int] == b[a.len() as int]);
        assert(b.contains(' '));
    }
    if b.len() < a.len() {
        assert(s[b.len() as int] == a[b.len() as int]);
        assert(a.contains(' '));
    }
    assert(a =~= s.take(a.len() as int));
    assert(b =~= t.take(b.len() as int));
    assert(x =~= s.skip(a.len() as int + 1));
    assert(y =~= t.skip(b.len() as int + 1));
}

/// Tracks without codec labels have distinct names, where no language has a
/// space in it.
pub proof fn numbered_names_are_distinct(
    languages: Seq<Seq<char>>,
    labels: Seq<Seq<char>>,
    i: int,
    j: int,
)
    requires
        0 <= i < j < languages.len(),
        languages.len() <= labels.len(),
        labels[i].len() == 0,
        labels[j].len() == 0,
        !languages[i].contains(' '),
        !languages[j].contains(' '),
    ensures
        track_names(languages, labels)[i] != track_names(languages, labels)[j],
{
    let n = languages.len() as int;
    let a = languages[i];
    let b = languages[j];
    let x = occurrences(languages, a, i + 1);
    let y = occurrences(languages, b, j + 1);
    let s = track_name(languages, labels, i);
    let t = track_name(languages, labels, j);
    reveal_strlit(" ");
    lemma_occurrences_grow(languages, a, i + 1, n);
    lemma_occurrences_grow(languages, b, j + 1, n);
    lemma_occurrences_grow(languages, b, i + 1, j + 1);
    lemma_occurrences_grow(languages, a, 0, i + 1);
    assert(x >= 1);
    if a == b {
        assert(x < y);
        let long = b + " "@ + text::decimal(y);
        assert(t == long);
        assert(long[b.len() as int] == ' ');
        if s == t {
            if x > 1 {
                lemma_split_at_space(a, text::decimal(x), b, text::decimal(y));
                text::decimal_is_injective(x, y);
            } else {
                assert(s.contains(' '));
            }
        }
    } else if s == t {
        let long_a = a + " "@ + text::decimal(x);
        let long_b = b + " "@ + text::decimal(y);
        assert(long_a[a.len() as int] == ' ');
        assert(long_b[b.len() as int] == ' ');
        if s == a {
            if t != b {
                assert(t == long_b);
                assert(a.contains(' '));
            }
        } else {
            assert(s == long_a);
            if t == b {
                assert(b.contains(' '));
            } else {
                lemma_split_at_space(a, text::decimal(x), b, text::decimal(y));
            }
        }
    }
}

// --- stream configurations ---

/// The language of a stream in a file, `und` where it is not known.
pub open spec fn known_language(lang: Option<Seq<char>>) -> Seq<char> {
    match lang {
        Some(lang) => lang,
        None => "und"@,
    }
}

fn language_or_und(lang: &Option<String>) -> (r: String)
    ensures
        r@ == known_language(lang.deep_view()),
{
    match lang {
        Some(lang) => lang.clone(),
        None => "und".to_owned(),
    }
}

/// The languages of the selected audio streams.
pub open spec fn audio_languages(probed: ProbedModel, selections: Seq<AudioSelection>) -> Seq<
    Seq<char>,
> {
    Seq::new(
        selections.len(),
        |i: int|
            if selections[i].stream_index_in_clip < probed.audio.len() {
                known_language(probed.audio[selections[i].stream_index_in_clip as int].1)
            } else {
                "und"@
            },
    )
}

fn selected_languages(probed: &ProbedStreams, selections: &Vec<AudioSelection>) -> (r: Vec<String>)
    ensures
        r.deep_view() == audio_languages(probed.deep_view(), selections@),
{
    let ghost model = probed.deep_view();
    let ghost all = audio_languages(model, selections@);
    let mut languages: Vec<String> = list::empty();
    let mut i: usize = 0;
    while i < selections.len()
        invariant
            i <= selections.len(),
            model == probed.deep_view(),
            all == audio_languages(model, selections@),
            languages.deep_view() == all.take(i as int),
        decreases selections.len() - i,
    {
        let at: usize = selections[i].stream_index_in_clip;
        if at < probed.audio.len() {
            assert(model.audio[at as int] == probed.audio[at as int].deep_view());
            list::push(&mut languages, language_or_und(&probed.audio[at].1));
        } else {
            list::push(&mut languages, "und".to_owned());
        }
        assert(languages.deep_view() =~= all.take(i + 1));
        i = i + 1;
    }
    assert(all.take(i as int) =~= all);
    languages
}

/// The coding type of the first of some audio streams with a place in the clip.
pub open spec fn coding_at(streams: Seq<analysis::AudioStreamModel>, place: usize) -> Option<u8>
    decreases streams.len(),
{
    if streams.len() == 0 {
        None
    } else if streams[0].index_in_clip == place {
        Some(streams[0].coding_type)
    } else {
        coding_at(streams.skip(1), place)
    }
}

fn find_coding(streams: &Vec<AudioStreamInfo>, place: usize) -> (r: Option<u8>)
    ensures
        r == coding_at(streams.deep_view(), place),
{
    let ghost models = streams.deep_view();
    let mut i: usize = 0;
    assert(models.skip(0) =~= models);
    while i < streams.len()
        invariant
            i <= streams.len(),
            models == streams.deep_view(),
            coding_at(models, place) == coding_at(models.skip(i as int), place),
        decreases streams.len() - i,
    {
        assert(models.skip(i as int)[0] == streams[i as int].deep_view());
        if streams[i].index_in_clip == place {
            return Some(streams[i].coding_type);
        }
        assert(models.skip(i as int).skip(1) =~= models.skip(i + 1));
        i = i + 1;
    }
    None
}

/// The codec label of a selected audio stream: what the disc says it is, and what
/// it is encoded to; empty where the disc says nothing of it.
pub open spec fn codec_label(
    streams: Seq<analysis::AudioStreamModel>,
    sel: AudioSelection,
) -> Seq<char> {
    match coding_at(streams, sel.stream_index_in_clip) {
        Some(ct) => match sel.action {
            AudioSelectionAction::Copy => tui::coding_name(ct),
            AudioSelectionAction::EncodeAac => tui::coding_name(ct) + " → AAC"@,
        },
        None => Seq::empty(),
    }
}

/// The codec labels of the selected audio streams.
pub open spec fn codec_labels(
    streams: Seq<analysis::AudioStreamModel>,
    selections: Seq<AudioSelection>,
) -> Seq<Seq<char>> {
    Seq::new(selections.len(), |i: int| codec_label(streams, selections[i]))
}

fn make_codec_labels(
    streams: &Vec<AudioStreamInfo>,
    selections: &Vec<AudioSelection>,
) -> (r: Vec<String>)
    ensures
        r.deep_view() == codec_labels(streams.deep_view(), selections@),
{
    let ghost models = streams.deep_view();
    let ghost all = codec_labels(models, selections@);
    let mut labels: Vec<String> = list::empty();
    let mut i: usize = 0;
    while i < selections.len()
        invariant
            i <= selections.len(),
            models == streams.deep_view(),
            all == codec_labels(models, selections@),
            labels.deep_view() == all.take(i as int),
        decreases selections.len() - i,
    {
        let sel = selections[i];
        let label: String = match find_coding(streams, sel.stream_index_in_clip) {
            Some(ct) => {
                let mut label = tui::format_coding_type(ct).to_owned();
                if matches!(sel.action, AudioSelectionAction::EncodeAac) {
                    label.append(" → AAC");
                }
                label
            },
            None => String::new(),
        };
        list::push(&mut labels, label);
        assert(labels.deep_view() =~= all.take(i + 1));
        i = i + 1;
    }
    assert(all.take(i as int) =~= all);
    labels
}

/// What is said of a selected audio stream that the file does not have.
pub open spec fn no_audio_text(place: usize, streams: nat) -> Seq<char> {
    "Audio stream "@ + text::decimal(place as nat) + " not found in file (file has "@
        + text::decimal(streams) + " audio streams)"@
}

/// What is said of a selected subtitle stream that the file does not have.
pub open spec fn no_subtitle_text(place: usize, streams: nat) -> Seq<char> {
    "Subtitle stream "@ + text::decimal(place as nat) + " not found in file (file has "@
        + text::decimal(streams) + " subtitle streams)"@
}

/// What is done with a selected audio stream.
pub open spec fn selected_action(
    action: AudioSelectionAction,
    bitrate: Option<u64>,
) -> transcode::config::AudioActionModel {
    match action {
        AudioSelectionAction::Copy => transcode::config::AudioActionModel::Copy,
        AudioSelectionAction::EncodeAac => transcode::config::AudioActionModel::aac(bitrate),
    }
}

/// The track for each selected audio stream, or why there is none.
pub open spec fn audio_tracks_at(
    probed: ProbedModel,
    selections: Seq<AudioSelection>,
    names: Seq<Seq<char>>,
    bitrate: Option<u64>,
) -> spec_fn(int) -> Result<transcode::config::AudioConfigModel, Seq<char>> {
    |i: int|
        {
            let place = selections[i].stream_index_in_clip;
            if place < probed.audio.len() {
                Ok(
                    transcode::config::AudioConfigModel {
                        source_stream: probed.audio[place as int].0,
                        language: probed.audio[place as int].1,
                        name: Some(names[i]),
                        action: selected_action(selections[i].action, bitrate),
                    },
                )
            } else {
                Err(no_audio_text(place, probed.audio.len()))
            }
        }
}

/// The tracks for the selected audio streams.
pub open spec fn audio_tracks_of(
    streams: Seq<analysis::AudioStreamModel>,
    probed: ProbedModel,
    selections: Seq<AudioSelection>,
    bitrate: Option<u64>,
) -> Result<Seq<transcode::config::AudioConfigModel>, Seq<char>> {
    let names = track_names(
        audio_languages(probed, selections),
        codec_labels(streams, selections),
    );
    gather::gather(
        selections.len(),
        audio_tracks_at(probed, selections, names, bitrate),
    )
}

/// The languages of the selected subtitle streams.
pub open spec fn subtitle_languages(probed: ProbedModel, places: Seq<usize>) -> Seq<Seq<char>> {
    Seq::new(
        places.len(),
        |i: int|
            if places[i] < probed.subtitle.len() {
                known_language(probed.subtitle[places[i] as int].language)
            } else {
                "und"@
            },
    )
}

/// Empty labels, one for each selected subtitle stream.
pub open spec fn no_labels(n: nat) -> Seq<Seq<char>> {
    Seq::new(n, |i: int| Seq::<char>::empty())
}

/// The track for each selected subtitle stream, or why there is none.
pub open spec fn subtitle_tracks_at(
    probed: ProbedModel,
    places: Seq<usize>,
    names: Seq<Seq<char>>,
) -> spec_fn(int) -> Result<transcode::config::SubtitleConfigModel, Seq<char>> {
    |i: int|
        {
            if places[i] < probed.subtitle.len() {
                let s = probed.subtitle[places[i] as int];
                Ok(
                    transcode::config::SubtitleConfigModel {
                        source_stream: s.ffmpeg_index,
                        language: s.language,
                        name: Some(names[i]),
                        forced: s.forced,
                    },
                )
            } else {
                Err(no_subtitle_text(places[i], probed.subtitle.len()))
            }
        }
}

/// The tracks for the selected subtitle streams.
pub open spec fn subtitle_tracks_of(probed: ProbedModel, places: Seq<usize>) -> Result<
    Seq<transcode::config::SubtitleConfigModel>,
    Seq<char>,
> {
    let names = track_names(subtitle_languages(probed, places), no_labels(places.len()));
    gather::gather(places.len(), subtitle_tracks_at(probed, places, names))
}

/// The chapter for a mark on the disc: numbered from 1, in milliseconds.
pub open spec fn chapter_of(ch: ChapterMark) -> transcode::config::ChapterInfoModel {
    transcode::config::ChapterInfoModel {
        id: ch.index + 1,
        title: "Chapter "@ + text::decimal((ch.index + 1) as nat),
        start_ms: ch.start_ticks as int / 90,
        end_ms: ch.start_ticks as int / 90 + ch.duration_ticks as int / 90,
    }
}

/// The chapters for the marks on the disc.
pub open spec fn chapters_of(marks: Seq<ChapterMark>) -> Seq<transcode::config::ChapterInfoModel> {
    marks.map_values(|ch: ChapterMark| chapter_of(ch))
}

/// What goes into a transcode of a title.
pub open spec fn resolved(
    title: analysis::AnalysedTitleModel,
    probed: ProbedModel,
    selections: Seq<AudioSelection>,
    subtitle_indices: Seq<usize>,
    bitrate: Option<u64>,
) -> Result<
    (
        Seq<transcode::config::AudioConfigModel>,
        Seq<transcode::config::SubtitleConfigModel>,
        Seq<transcode::config::ChapterInfoModel>,
    ),
    Seq<char>,
> {
    match (
        audio_tracks_of(title.audio_streams, probed, selections, bitrate),
        subtitle_tracks_of(probed, subtitle_indices),
    ) {
        (Err(message), _) => Err(message),
        (_, Err(message)) => Err(message),
        (Ok(audio), Ok(subtitles)) => Ok((audio, subtitles, chapters_of(title.chapters))),
    }
}

fn resolve_audio(
    title: &AnalysedTitle,
    probed: &ProbedStreams,
    selections: &Vec<AudioSelection>,
    bitrate: Option<u64>,
) -> (r: Result<Vec<AudioConfig>, String>)
    ensures
        match r {
            Ok(tracks) => audio_tracks_of(
                title.audio_streams.deep_view(),
                probed.deep_view(),
                selections@,
                bitrate,
            ) == Ok::<Seq<transcode::config::AudioConfigModel>, Seq<char>>(tracks.deep_view()),
            Err(message) => audio_tracks_of(
                title.audio_streams.deep_view(),
                probed.deep_view(),
                selections@,
                bitrate,
            ) == Err::<Seq<transcode::config::AudioConfigModel>, Seq<char>>(message@),
        },
{
    let ghost model = probed.deep_view();
    let languages = selected_languages(probed, selections);
    let labels = make_codec_labels(&title.audio_streams, selections);
    assert(languages.deep_view().len() == languages.len());
    assert(labels.deep_view().len() == labels.len());
    let names = make_track_names(&languages, &labels);
    let ghost wanted = names.deep_view();
    assert(wanted.len() == names.len());
    let ghost reader = audio_tracks_at(model, selections@, wanted, bitrate);
    let mut tracks: Vec<AudioConfig> = list::empty();
    let mut i: usize = 0;
    while i < selections.len()
        invariant
            i <= selections.len(),
            names.len() == selections.len(),
            model == probed.deep_view(),
            wanted == names.deep_view(),
            wanted == track_names(
                audio_languages(model, selections@),
                codec_labels(title.audio_streams.deep_view(), selections@),
            ),
            reader == audio_tracks_at(model, selections@, wanted, bitrate),
            gather::gather(i as nat, reader) == Ok::<
                Seq<transcode::config::AudioConfigModel>,
                Seq<char>,
            >(tracks.deep_view()),
        decreases selections.len() - i,
    {
        let sel = selections[i];
        let place: usize = sel.stream_index_in_clip;
        assert(model.audio.len() == probed.audio.len());
        if place >= probed.audio.len() {
            let mut message = "Audio stream ".to_owned();
            text::push_decimal(&mut message, place as u64);
            message.append(" not found in file (file has ");
            text::push_decimal(&mut message, probed.audio.len() as u64);
            message.append(" audio streams)");
            proof {
                gather::lemma_gather_fails((i + 1) as nat, selections.len() as nat, reader);
            }
            return Err(message);
        }
        assert(model.audio[place as int] == probed.audio[place as int].deep_view());
        assert(wanted[i as int] == names[i as int]@);
        let action: AudioAction = match sel.action {
            AudioSelectionAction::Copy => AudioAction::Copy,
            AudioSelectionAction::EncodeAac => AudioAction::encode_aac(bitrate),
        };
        let track = AudioConfig {
            source_stream: probed.audio[place].0,
            language: text::copy_opt(&probed.audio[place].1),
            name: Some(names[i].clone()),
            action,
        };
        assert(reader(i as int) == Ok::<transcode::config::AudioConfigModel, Seq<char>>(
            track.deep_view(),
        ));
        list::push(&mut tracks, track);
        i = i + 1;
    }
    Ok(tracks)
}

fn resolve_subtitles(probed: &ProbedStreams, places: &Vec<usize>) -> (r: Result<
    Vec<SubtitleConfig>,
    String,
>)
    ensures
        match r {
            Ok(tracks) => subtitle_tracks_of(probed.deep_view(), places@) == Ok::<
                Seq<transcode::config::SubtitleConfigModel>,
                Seq<char>,
            >(tracks.deep_view()),
            Err(message) => subtitle_tracks_of(probed.deep_view(), places@) == Err::<
                Seq<transcode::config::SubtitleConfigModel>,
                Seq<char>,
            >(message@),
        },
{
    let ghost model = probed.deep_view();
    let ghost spoken = subtitle_languages(model, places@);
    let mut languages: Vec<String> = list::empty();
    let mut labels: Vec<String> = list::empty();
    let mut k: usize = 0;
    while k < places.len()
        invariant
            k <= places.len(),
            model == probed.deep_view(),
            spoken == subtitle_languages(model, places@),
            languages.deep_view() == spoken.take(k as int),
            labels.deep_view() == no_labels(k as nat),
        decreases places.len() - k,
    {
        let place: usize = places[k];
        assert(model.subtitle.len() == probed.subtitle.len());
        if place < probed.subtitle.len() {
            assert(model.subtitle[place as int] == probed.subtitle[place as int].deep_view());
            list::push(&mut languages, language_or_und(&probed.subtitle[place].language));
        } else {
            list::push(&mut languages, "und".to_owned());
        }
        list::push(&mut labels, String::new());
        assert(languages.deep_view() =~= spoken.take(k + 1));
        assert(labels.deep_view() =~= no_labels((k + 1) as nat));
        k = k + 1;
    }
    assert(spoken.take(k as int) =~= spoken);
    assert(languages.deep_view().len() == languages.len());
    assert(labels.deep_view().len() == labels.len());
    let names = make_track_names(&languages, &labels);
    let ghost wanted = names.deep_view();
    assert(wanted.len() == names.len());
    let ghost reader = subtitle_tracks_at(model, places@, wanted);
    let mut tracks: Vec<SubtitleConfig> = list::empty();
    let mut i: usize = 0;
    while i < places.len()
        invariant
            i <= places.len(),
            names.len() == places.len(),
            model == probed.deep_view(),
            wanted == names.deep_view(),
            wanted == track_names(subtitle_languages(model, places@), no_labels(places@.len())),
            reader == subtitle_tracks_at(model, places@, wanted),
            gather::gather(i as nat, reader) == Ok::<
                Seq<transcode::config::SubtitleConfigModel>,
                Seq<char>,
            >(tracks.deep_view()),
        decreases places.len() - i,
    {
        let place: usize = places[i];
        assert(model.subtitle.len() == probed.subtitle.len());
        if place >= probed.subtitle.len() {
            let mut message = "Subtitle stream ".to_owned();
            text::push_decimal(&mut message, place as u64);
            message.append(" not found in file (file has ");
            text::push_decimal(&mut message, probed.subtitle.len() as u64);
            message.append(" subtitle streams)");
            proof {
                gather::lemma_gather_fails((i + 1) as nat, places.len() as nat, reader);
            }
            return Err(message);
        }
        assert(model.subtitle[place as int] == probed.subtitle[place as int].deep_view());
        assert(wanted[i as int] == names[i as int]@);
        let track = SubtitleConfig {
            source_stream: probed.subtitle[place].ffmpeg_index,
            language: text::copy_opt(&probed.subtitle[place].language),
            name: Some(names[i].clone()),
            forced: probed.subtitle[place].forced,
        };
        assert(reader(i as int) == Ok::<transcode::config::SubtitleConfigModel, Seq<char>>(
            track.deep_view(),
        ));
        list::push(&mut tracks, track);
        i = i + 1;
    }
    Ok(tracks)
}

fn resolve_chapters(marks: &Vec<ChapterMark>) -> (r: Vec<ChapterInfo>)
    ensures
        r.deep_view() == chapters_of(marks@),
{
    let ghost all = chapters_of(marks@);
    let mut chapters: Vec<ChapterInfo> = list::empty();
    let mut i: usize = 0;
    while i < marks.len()
        invariant
            i <= marks.len(),
            all == chapters_of(marks@),
            chapters.deep_view() == all.take(i as int),
        decreases marks.len() - i,
    {
        let ch = marks[i];
        let start_ms: i64 = (ch.start_ticks / 90) as i64;
        let end_ms: i64 = start_ms + (ch.duration_ticks / 90) as i64;
        let mut title = "Chapter ".to_owned();
        text::push_decimal(&mut title, ch.index as u64 + 1);
        list::push(
            &mut chapters,
            ChapterInfo { id: ch.index as i64 + 1, title, start_ms, end_ms },
        );
        assert(chapters.deep_view() =~= all.take(i + 1));
        i = i + 1;
    }
    assert(all.take(i as int) =~= all);
    chapters
}

/// The tracks and chapters of a transcode.
#[derive(Debug)]
pub struct StreamConfigs {
    pub audio_tracks: Vec<AudioConfig>,
    pub subtitle_tracks: Vec<SubtitleConfig>,
    pub chapters: Vec<ChapterInfo>,
}

/// Works out what goes into a transcode of a title, from what the disc says of
/// it, what its file really holds, and what was selected.
pub fn resolve_stream_configs(
    title: &AnalysedTitle,
    probed: &ProbedStreams,
    audio_selections: &Vec<AudioSelection>,
    subtitle_indices: &Vec<usize>,
    config: &Config,
) -> (r: Result<StreamConfigs, String>)
    ensures
        ({
            let wanted = resolved(
                title.deep_view(),
                probed.deep_view(),
                audio_selections@,
                subtitle_indices@,
                config.transcode.audio_bitrate,
            );
            match r {
                Ok(streams) => {
                    &&& wanted matches Ok(w)
                    &&& w.0 == streams.audio_tracks.deep_view()
                    &&& w.1 == streams.subtitle_tracks.deep_view()
                    &&& w.2 == streams.chapters.deep_view()
                },
                Err(message) => wanted matches Err(w) && w == message@,
            }
        }),
{
    let audio_tracks = match resolve_audio(
        title,
        probed,
        audio_selections,
        config.transcode.audio_bitrate,
    ) {
        Ok(tracks) => tracks,
        Err(message) => return Err(message),
    };
    let subtitle_tracks = match resolve_subtitles(probed, subtitle_indices) {
        Ok(tracks) => tracks,
        Err(message) => return Err(message),
    };
    Ok(
        StreamConfigs {
            audio_tracks,
            subtitle_tracks,
            chapters: resolve_chapters(&title.chapters),
        },
    )
}

/// The transcode of a title.
pub open spec fn title_job(
    title: analysis::AnalysedTitleModel,
    input_path: Seq<char>,
    output_path: Seq<char>,
    probed: ProbedModel,
    selections: Seq<AudioSelection>,
    subtitle_indices: Seq<usize>,
    c: config::TranscodeConfigModel,
) -> Result<transcode::TranscodeJobModel, Seq<char>> {
    match resolved(title, probed, selections, subtitle_indices, c.audio_bitrate) {
        Ok((audio, subtitles, chapters)) => Ok(
            transcode::TranscodeJobModel {
                video: transcode::config::VideoConfigModel::asked(
                    transcode::config::VideoCodec::named(c.video_codec),
                    c.crf,
                    c.preset,
                ),
                audio_tracks: audio,
                subtitle_tracks: subtitles,
                chapters,
                ..transcode::TranscodeJobModel::fresh(input_path, output_path)
            },
        ),
        Err(message) => Err(message),
    }
}

/// The transcode of a title.
pub fn build_transcode_job(
    title: &AnalysedTitle,
    input_path: &str,
    output_path: &str,
    probed: &ProbedStreams,
    audio_selections: &Vec<AudioSelection>,
    subtitle_indices: &Vec<usize>,
    config: &Config,
) -> (r: Result<TranscodeJob, String>)
    ensures
        ({
            let wanted = title_job(
                title.deep_view(),
                input_path@,
                output_path@,
                probed.deep_view(),
                audio_selections@,
                subtitle_indices@,
                config.transcode.deep_view(),
            );
            match r {
                Ok(job) => wanted matches Ok(w) && w == job.deep_view(),
                Err(message) => wanted matches Err(w) && w == message@,
            }
        }),
{
    match resolve_stream_configs(title, probed, audio_selections, subtitle_indices, config) {
        Ok(streams) => {
            let mut job = TranscodeJob::new(input_path, output_path).video(
                VideoConfig::from_transcode_config(&config.transcode),
            );
            job.audio_tracks = streams.audio_tracks;
            job.subtitle_tracks = streams.subtitle_tracks;
            Ok(job.chapters(streams.chapters))
        },
        Err(message) => Err(message),
    }
}

// --- the course of a rip ---

/// One title on its way from the disc to its file.
#[derive(Debug)]
pub struct RipStep {
    /// Its place in the analysis.
    pub place: usize,
    pub title_idx: u32,
    pub temp_path: String,
    pub output_path: String,
    /// What the user is told before.
    pub announcement: String,
}

/// What a `RipStep` says.
pub ghost struct RipStepModel {
    pub place: int,
    pub title_idx: u32,
    pub temp_path: Seq<char>,
    pub output_path: Seq<char>,
    pub announcement: Seq<char>,
}

impl DeepView for RipStep {
    type V = RipStepModel;

    open spec fn deep_view(&self) -> RipStepModel {
        RipStepModel {
            place: self.place as int,
            title_idx: self.title_idx,
            temp_path: self.temp_path@,
            output_path: self.output_path@,
            announcement: self.announcement@,
        }
    }
}

/// Where a title is put while it is worked on.
pub open spec fn temp_file(temp_dir: Seq<char>, title_idx: u32) -> Seq<char> {
    temp_dir + "/rip_"@ + text::decimal(title_idx as nat) + ".m2ts"@
}

fn temp_path(temp_dir: &str, title_idx: u32) -> (r: String)
    ensures
        r@ == temp_file(temp_dir@, title_idx),
{
    let mut path = temp_dir.to_owned();
    path.append("/rip_");
    text::push_decimal(&mut path, title_idx as u64);
    path.append(".m2ts");
    path
}

/// Two titles are never put in the same place.
pub proof fn temp_files_are_distinct(temp_dir: Seq<char>, a: u32, b: u32)
    requires
        temp_file(temp_dir, a) == temp_file(temp_dir, b),
    ensures
        a == b,
{
    reveal_strlit("/rip_");
    reveal_strlit(".m2ts");
    let x = text::decimal(a as nat);
    let y = text::decimal(b as nat);
    let n = temp_dir.len() as int + 5;
    assert(temp_file(temp_dir, a).len() == n + x.len() + 5);
    assert(temp_file(temp_dir, b).len() == n + y.len() + 5);
    assert(temp_file(temp_dir, a).subrange(n, n + x.len()) =~= x);
    assert(temp_file(temp_dir, b).subrange(n, n + y.len()) =~= y);
    text::decimal_is_injective(a as nat, b as nat);
}

/// The one step of ripping a movie, or why it cannot be ripped.
pub open spec fn movie_step(
    a: analysis::TitleAnalysisModel,
    choice: tui::MovieChoiceModel,
    c: config::ConfigModel,
) -> Result<RipStepModel, Seq<char>> {
    let place = tui::title_place(a.titles, choice.title_idx);
    match c.movie_dir {
        Some(dir) => if place < a.titles.len() {
            let output = jellyfin::movie_location(
                dir,
                choice.tmdb.title,
                choice.tmdb.year,
                choice.tmdb.id,
            );
            Ok(
                RipStepModel {
                    place,
                    title_idx: choice.title_idx,
                    temp_path: temp_file(c.temp_dir, choice.title_idx),
                    output_path: output,
                    announcement: "\nRipping: "@ + crate::tmdb::dated(
                        choice.tmdb.title,
                        choice.tmdb.year,
                    ) + " -> "@ + output,
                },
            )
        } else {
            Err("Selected title not found"@)
        },
        None => Err("movie_dir not configured"@),
    }
}

/// The one step of ripping a movie, or why it cannot be ripped.
pub fn plan_movie_rip(found: &TitleAnalysis, choice: &MovieChoice, config: &Config) -> (r: Result<
    RipStep,
    String,
>)
    ensures
        ({
            let wanted = movie_step(found.deep_view(), choice.deep_view(), config.deep_view());
            match r {
                Ok(step) => wanted matches Ok(w) && w == step.deep_view() && step.place
                    < found.titles.len(),
                Err(message) => wanted matches Err(w) && w == message@,
            }
        }),
{
    let dir = match &config.movie_dir {
        Some(dir) => dir,
        None => return Err("movie_dir not configured".to_owned()),
    };
    let place: usize = match tui::find_title(&found.titles, choice.title_idx) {
        Some(place) => place,
        None => return Err("Selected title not found".to_owned()),
    };
    assert(found.deep_view().titles.len() == found.titles.len());
    let output_path = jellyfin::movie_path(
        dir.as_str(),
        choice.tmdb.title.as_str(),
        choice.tmdb.year,
        choice.tmdb.id,
    );
    let mut announcement = "\nRipping: ".to_owned();
    announcement.append(choice.tmdb.label().as_str());
    announcement.append(" -> ");
    announcement.append(output_path.as_str());
    Ok(
        RipStep {
            place,
            title_idx: choice.title_idx,
            temp_path: temp_path(config.temp_dir.as_str(), choice.title_idx),
            output_path,
            announcement,
        },
    )
}

/// What is said of an episode's title that is not there.
pub open spec fn no_episode_text(title_idx: u32) -> Seq<char> {
    "Title "@ + text::decimal(title_idx as nat) + " not found"@
}

/// The step of ripping the title at `i` of a show: its episode is numbered from the
/// starting one, in the order of the titles.
pub open spec fn show_step(
    a: analysis::TitleAnalysisModel,
    choice: tui::ShowChoiceModel,
    dir: Seq<char>,
    temp_dir: Seq<char>,
    i: int,
) -> Result<RipStepModel, Seq<char>> {
    let title_idx = choice.title_indices[i];
    let episode = choice.start_episode + i;
    let place = tui::title_place(a.titles, title_idx);
    let output = jellyfin::episode_location(
        dir,
        choice.tmdb.name,
        choice.tmdb.year,
        choice.tmdb.id,
        choice.season,
        episode as u32,
    );
    if place < a.titles.len() {
        Ok(
            RipStepModel {
                place,
                title_idx,
                temp_path: temp_file(temp_dir, title_idx),
                output_path: output,
                announcement: "\nRipping episode "@ + text::decimal(episode as nat) + " (title "@
                    + text::decimal(title_idx as nat) + ") -> "@ + output,
            },
        )
    } else {
        Err(no_episode_text(title_idx))
    }
}

/// The steps of ripping a show, one for each title.
pub open spec fn show_steps_at(
    a: analysis::TitleAnalysisModel,
    choice: tui::ShowChoiceModel,
    dir: Seq<char>,
    temp_dir: Seq<char>,
) -> spec_fn(int) -> Result<RipStepModel, Seq<char>> {
    |i: int| show_step(a, choice, dir, temp_dir, i)
}

fn plan_episode(
    found: &TitleAnalysis,
    choice: &ShowChoice,
    dir: &str,
    temp_dir: &str,
    i: usize,
) -> (r: Result<RipStep, String>)
    requires
        i < choice.title_indices.len(),
        choice.start_episode + i <= u32::MAX,
    ensures
        match r {
            Ok(step) => show_step(
                found.deep_view(),
                choice.deep_view(),
                dir@,
                temp_dir@,
                i as int,
            ) == Ok::<RipStepModel, Seq<char>>(step.deep_view()) && step.place
                < found.titles.len(),
            Err(message) => show_step(
                found.deep_view(),
                choice.deep_view(),
                dir@,
                temp_dir@,
                i as int,
            ) == Err::<RipStepModel, Seq<char>>(message@),
        },
{
    let title_idx: u32 = choice.title_indices[i];
    let episode_num: u32 = choice.start_episode + i as u32;
    assert(found.deep_view().titles.len() == found.titles.len());
    let place: usize = match tui::find_title(&found.titles, title_idx) {
        Some(place) => place,
        None => {
            let mut message = "Title ".to_owned();
            text::push_decimal(&mut message, title_idx as u64);
            message.append(" not found");
            return Err(message);
        },
    };
    let output_path = jellyfin::episode_path(
        dir,
        choice.tmdb.name.as_str(),
        choice.tmdb.year,
        choice.tmdb.id,
        choice.season,
        episode_num,
    );
    let mut announcement = "\nRipping episode ".to_owned();
    text::push_decimal(&mut announcement, episode_num as u64);
    announcement.append(" (title ");
    text::push_decimal(&mut announcement, title_idx as u64);
    announcement.append(") -> ");
    announcement.append(output_path.as_str());
    Ok(
        RipStep {
            place,
            title_idx,
            temp_path: temp_path(temp_dir, title_idx),
            output_path,
            announcement,
        },
    )
}

/// The steps of a rip, up to the first that cannot be taken, and why it cannot.
#[derive(Debug)]
pub struct RipPlan {
    pub steps: Vec<RipStep>,
    pub failure: Option<String>,
    /// Is the disc ejected when all is done?
    pub eject: bool,
}

/// The steps up to the first that fails, and why it does.
pub open spec fn steps_before_failure(
    n: int,
    step: spec_fn(int) -> Result<RipStepModel, Seq<char>>,
) -> (Seq<RipStepModel>, Option<Seq<char>>)
    decreases n,
{
    if n <= 0 {
        (Seq::empty(), None)
    } else {
        let (steps, failure) = steps_before_failure(n - 1, step);
        if failure is Some {
            (steps, failure)
        } else {
            match step(n - 1) {
                Ok(s) => (steps.push(s), None),
                Err(message) => (steps, Some(message)),
            }
        }
    }
}

proof fn lemma_failure_stays(
    m: int,
    n: int,
    step: spec_fn(int) -> Result<RipStepModel, Seq<char>>,
)
    requires
        0 <= m <= n,
        steps_before_failure(m, step).1 is Some,
    ensures
        steps_before_failure(n, step) == steps_before_failure(m, step),
    decreases n,
{
    if m < n {
        lemma_failure_stays(m, n - 1, step);
    }
}

/// The steps of ripping a show, and why it ends before its time. A title that is
/// not there ends it, when the titles before it have been ripped.
pub open spec fn show_steps(
    a: analysis::TitleAnalysisModel,
    choice: tui::ShowChoiceModel,
    c: config::ConfigModel,
) -> (Seq<RipStepModel>, Option<Seq<char>>) {
    match c.show_dir {
        Some(dir) => steps_before_failure(
            choice.title_indices.len() as int,
            show_steps_at(a, choice, dir, c.temp_dir),
        ),
        None => (Seq::empty(), Some("show_dir not configured"@)),
    }
}

/// The episode numbers of a choice stay within the range of a number.
pub open spec fn countable(choice: ShowChoice) -> bool {
    choice.start_episode + choice.title_indices.len() <= u32::MAX + 1
}

/// The steps of ripping a show, and why it ends before its time.
pub fn plan_show_rip(found: &TitleAnalysis, choice: &ShowChoice, config: &Config) -> (r: (
    Vec<RipStep>,
    Option<String>,
))
    requires
        config.show_dir is Some ==> countable(*choice),
    ensures
        (r.0.deep_view(), r.1.deep_view()) == show_steps(
            found.deep_view(),
            choice.deep_view(),
            config.deep_view(),
        ),
        forall|i: int| 0 <= i < r.0.len() ==> (#[trigger] r.0[i]).place < found.titles.len(),
{
    let dir = match &config.show_dir {
        Some(dir) => dir,
        None => return (list::empty(), Some("show_dir not configured".to_owned())),
    };
    let ghost model = found.deep_view();
    let ghost wish = choice.deep_view();
    let ghost step = show_steps_at(model, wish, dir@, config.temp_dir@);
    let mut steps: Vec<RipStep> = list::empty();
    let mut i: usize = 0;
    while i < choice.title_indices.len()
        invariant
            i <= choice.title_indices.len(),
            countable(*choice),
            model == found.deep_view(),
            wish == choice.deep_view(),
            config.deep_view().show_dir == Some(dir@),
            step == show_steps_at(model, wish, dir@, config.temp_dir@),
            steps_before_failure(i as int, step) == (steps.deep_view(), None::<Seq<char>>),
            forall|k: int| 0 <= k < steps.len() ==> (#[trigger] steps[k]).place < found.titles.len(),
        decreases choice.title_indices.len() - i,
    {
        let next: RipStep = match plan_episode(
            found,
            choice,
            dir.as_str(),
            config.temp_dir.as_str(),
            i,
        ) {
            Ok(next) => next,
            Err(message) => {
                proof {
                    lemma_failure_stays(i + 1, choice.title_indices.len() as int, step);
                }
                return (steps, Some(message));
            },
        };
        list::push(&mut steps, next);
        i = i + 1;
    }
    (steps, None)
}

/// Two titles of a show are never written to the same file.
pub proof fn episodes_of_a_rip_differ(
    a: analysis::TitleAnalysisModel,
    choice: tui::ShowChoiceModel,
    dir: Seq<char>,
    temp_dir: Seq<char>,
    i: int,
    j: int,
)
    requires
        0 <= i < j,
        choice.start_episode + j <= u32::MAX,
        show_steps_at(a, choice, dir, temp_dir)(i) is Ok,
        show_steps_at(a, choice, dir, temp_dir)(j) is Ok,
    ensures
        show_steps_at(a, choice, dir, temp_dir)(i)->Ok_0.output_path != show_steps_at(
            a,
            choice,
            dir,
            temp_dir,
        )(j)->Ok_0.output_path,
{
    let x = (choice.start_episode + i) as u32;
    let y = (choice.start_episode + j) as u32;
    let show = choice.tmdb;
    if jellyfin::episode_location(dir, show.name, show.year, show.id, choice.season, x)
        == jellyfin::episode_location(dir, show.name, show.year, show.id, choice.season, y) {
        jellyfin::episode_files_are_distinct(
            dir,
            show.name,
            show.year,
            show.id,
            choice.season,
            x,
            choice.season,
            y,
        );
    }
}

/// The steps of a rip, and why it ends before its time.
pub open spec fn rip_steps(
    a: analysis::TitleAnalysisModel,
    choice: MediaChoice,
    c: config::ConfigModel,
) -> (Seq<RipStepModel>, Option<Seq<char>>) {
    match choice {
        MediaChoice::Movie(m) => match movie_step(a, m.deep_view(), c) {
            Ok(step) => (seq![step], None),
            Err(message) => (Seq::empty(), Some(message)),
        },
        MediaChoice::Show(s) => show_steps(a, s.deep_view(), c),
    }
}

/// Lays out a rip. Only when all titles have been ripped is the disc ejected.
pub fn run_rip(found: &TitleAnalysis, choice: &MediaChoice, config: &Config) -> (r: RipPlan)
    requires
        choice matches MediaChoice::Show(s) ==> config.show_dir is Some ==> countable(*s),
    ensures
        (r.steps.deep_view(), r.failure.deep_view()) == rip_steps(
            found.deep_view(),
            *choice,
            config.deep_view(),
        ),
        r.eject == (config.eject_on_complete && r.failure is None),
        forall|i: int| 0 <= i < r.steps.len() ==> (#[trigger] r.steps[i]).place < found.titles.len(),
{
    let steps: Vec<RipStep>;
    let failure: Option<String>;
    match choice {
        MediaChoice::Movie(m) => match plan_movie_rip(found, m, config) {
            Ok(step) => {
                steps = list::single(step);
                failure = None;
            },
            Err(message) => {
                steps = list::empty();
                failure = Some(message);
            },
        },
        MediaChoice::Show(s) => {
            let plan = plan_show_rip(found, s, config);
            steps = plan.0;
            failure = plan.1;
        },
    }
    let eject: bool = config.eject_on_complete && failure.is_none();
    RipPlan { steps, failure, eject }
}

/// How much of a title has been read, for the user.
pub fn read_message(bytes: u64) -> (r: String)
    ensures
        r@ == "read "@ + text::decimal((bytes / 1_000_000) as nat) + " MB"@,
{
    let mut message = "read ".to_owned();
    text::push_decimal(&mut message, bytes / 1_000_000);
    message.append(" MB");
    message
}

// --- what a job says of its title ---

/// In the job of a title there is one audio track for each selection, in order. It
/// has the stream index and the language that the file gives for the audio stream
/// at the selected place; it is copied or encoded to AAC with the configured bit
/// rate, as selected; and it has a name.
pub proof fn audio_tracks_follow_the_selection(
    title: analysis::AnalysedTitleModel,
    input_path: Seq<char>,
    output_path: Seq<char>,
    probed: ProbedModel,
    selections: Seq<AudioSelection>,
    subtitle_indices: Seq<usize>,
    c: config::TranscodeConfigModel,
    i: int,
)
    requires
        title_job(title, input_path, output_path, probed, selections, subtitle_indices, c) is Ok,
        0 <= i < selections.len(),
    ensures
        ({
            let job = title_job(
                title,
                input_path,
                output_path,
                probed,
                selections,
                subtitle_indices,
                c,
            )->Ok_0;
            let track = job.audio_tracks[i];
            let place = selections[i].stream_index_in_clip as int;
            &&& job.audio_tracks.len() == selections.len()
            &&& place < probed.audio.len()
            &&& track.source_stream == probed.audio[place].0
            &&& track.language == probed.audio[place].1
            &&& track.name is Some
            &&& selections[i].action is Copy ==> track.action is Copy
            &&& selections[i].action is EncodeAac ==> (track.action
                matches transcode::config::AudioActionModel::Encode {
                codec_name,
                bitrate,
                extra_options,
            } && codec_name == "aac"@ && bitrate == c.audio_bitrate && extra_options.len() == 0)
        }),
{
    let names = track_names(
        audio_languages(probed, selections),
        codec_labels(title.audio_streams, selections),
    );
    let f = audio_tracks_at(probed, selections, names, c.audio_bitrate);
    gather::lemma_gather_succeeds(selections.len(), f);
    assert(f(i) is Ok);
}

/// In the job of a title there is one subtitle track for each selection, in order.
/// It has the stream index, the language and the forced flag that the file gives
/// for the subtitle stream at the selected place, and it has a name.
pub proof fn subtitle_tracks_follow_the_selection(
    title: analysis::AnalysedTitleModel,
    input_path: Seq<char>,
    output_path: Seq<char>,
    probed: ProbedModel,
    selections: Seq<AudioSelection>,
    subtitle_indices: Seq<usize>,
    c: config::TranscodeConfigModel,
    i: int,
)
    requires
        title_job(title, input_path, output_path, probed, selections, subtitle_indices, c) is Ok,
        0 <= i < subtitle_indices.len(),
    ensures
        ({
            let job = title_job(
                title,
                input_path,
                output_path,
                probed,
                selections,
                subtitle_indices,
                c,
            )->Ok_0;
            let track = job.subtitle_tracks[i];
            let place = subtitle_indices[i] as int;
            &&& job.subtitle_tracks.len() == subtitle_indices.len()
            &&& place < probed.subtitle.len()
            &&& track.source_stream == probed.subtitle[place].ffmpeg_index
            &&& track.language == probed.subtitle[place].language
            &&& track.forced == probed.subtitle[place].forced
            &&& track.name is Some
        }),
{
    let names = track_names(
        subtitle_languages(probed, subtitle_indices),
        no_labels(subtitle_indices.len()),
    );
    let f = subtitle_tracks_at(probed, subtitle_indices, names);
    gather::lemma_gather_succeeds(subtitle_indices.len(), f);
    assert(f(i) is Ok);
}

/// The job of a title has a chapter for each mark, in order, numbered one higher and
/// in whole milliseconds of 90 ticks, and the configured video settings; it makes a
/// Matroska file and finds the video stream by itself.
pub proof fn jobs_carry_chapters_and_settings(
    title: analysis::AnalysedTitleModel,
    input_path: Seq<char>,
    output_path: Seq<char>,
    probed: ProbedModel,
    selections: Seq<AudioSelection>,
    subtitle_indices: Seq<usize>,
    c: config::TranscodeConfigModel,
    i: int,
)
    requires
        title_job(title, input_path, output_path, probed, selections, subtitle_indices, c) is Ok,
    ensures
        ({
            let job = title_job(
                title,
                input_path,
                output_path,
                probed,
                selections,
                subtitle_indices,
                c,
            )->Ok_0;
            &&& job.input_path == input_path
            &&& job.output_path == output_path
            &&& job.container is Mkv
            &&& job.metadata.len() == 0
            &&& job.video.crf == c.crf
            &&& job.video.preset == c.preset
            &&& job.video.source_stream is None
            &&& job.video.extra_options.len() == 0
            &&& job.video.codec is H264 <==> c.video_codec == "h264"@
            &&& job.video.codec is H265 <==> c.video_codec == "h265"@
            &&& job.video.codec is Av1 <==> c.video_codec == "av1"@
            &&& job.chapters.len() == title.chapters.len()
            &&& 0 <= i < title.chapters.len() ==> {
                let mark = title.chapters[i];
                let chapter = job.chapters[i];
                let length = chapter.end_ms - chapter.start_ms;
                &&& chapter.id == mark.index + 1
                &&& chapter.title == "Chapter "@ + text::decimal(chapter.id as nat)
                &&& 90 * chapter.start_ms <= mark.start_ticks < 90 * (chapter.start_ms + 1)
                &&& 90 * length <= mark.duration_ticks < 90 * (length + 1)
            }
        }),
{
    transcode::config::codecs_are_named(c.video_codec);
}

/// A job is built exactly where every selected stream is in the file.
pub proof fn jobs_need_the_selected_streams(
    title: analysis::AnalysedTitleModel,
    probed: ProbedModel,
    selections: Seq<AudioSelection>,
    subtitle_indices: Seq<usize>,
    bitrate: Option<u64>,
)
    ensures
        resolved(title, probed, selections, subtitle_indices, bitrate) is Ok <==> (forall|i: int|
            0 <= i < selections.len() ==> (#[trigger] selections[i]).stream_index_in_clip
                < probed.audio.len()) && (forall|i: int|
            0 <= i < subtitle_indices.len() ==> #[trigger] subtitle_indices[i]
                < probed.subtitle.len()),
{
    let names = track_names(
        audio_languages(probed, selections),
        codec_labels(title.audio_streams, selections),
    );
    let f = audio_tracks_at(probed, selections, names, bitrate);
    let sub_names = track_names(
        subtitle_languages(probed, subtitle_indices),
        no_labels(subtitle_indices.len()),
    );
    let g = subtitle_tracks_at(probed, subtitle_indices, sub_names);
    if resolved(title, probed, selections, subtitle_indices, bitrate) is Ok {
        gather::lemma_gather_succeeds(selections.len(), f);
        gather::lemma_gather_succeeds(subtitle_indices.len(), g);
        assert forall|i: int| 0 <= i < selections.len() implies (
        #[trigger] selections[i]).stream_index_in_clip < probed.audio.len() by {
            let track = gather::gather(selections.len(), f)->Ok_0[i];
            assert(f(i) == Ok::<transcode::config::AudioConfigModel, Seq<char>>(track));
        }
        assert forall|i: int| 0 <= i < subtitle_indices.len() implies #[trigger] subtitle_indices[i]
            < probed.subtitle.len() by {
            let track = gather::gather(subtitle_indices.len(), g)->Ok_0[i];
            assert(g(i) == Ok::<transcode::config::SubtitleConfigModel, Seq<char>>(track));
        }
    }
    if (forall|i: int|
        0 <= i < selections.len() ==> (#[trigger] selections[i]).stream_index_in_clip
            < probed.audio.len()) && (forall|i: int|
        0 <= i < subtitle_indices.len() ==> #[trigger] subtitle_indices[i]
            < probed.subtitle.len()) {
        assert forall|i: int| 0 <= i < selections.len() implies #[trigger] f(i) is Ok by {
            assert(selections[i].stream_index_in_clip < probed.audio.len());
        }
        assert forall|i: int| 0 <= i < subtitle_indices.len() implies #[trigger] g(i) is Ok by {
            assert(subtitle_indices[i] < probed.subtitle.len());
        }
        gather::lemma_gather_all(selections.len(), f);
        gather::lemma_gather_all(subtitle_indices.len(), g);
    }
}

/// A track whose language no other track has is called by it; of several tracks of
/// one language without codec labels the first is called by it and the others get
/// their number behind it; and a codec label tells any two apart that differ in it.
pub proof fn names_start_with_the_language(
    languages: Seq<Seq<char>>,
    labels: Seq<Seq<char>>,
    i: int,
)
    requires
        0 <= i < languages.len(),
    ensures
        track_names(languages, labels).len() == languages.len(),
        track_names(languages, labels)[i].len() >= languages[i].len(),
        track_names(languages, labels)[i].take(languages[i].len() as int) == languages[i],
        (forall|j: int| 0 <= j < languages.len() && j != i ==> languages[j] != languages[i])
            ==> track_names(languages, labels)[i] == languages[i],
        labels[i].len() == 0 && (forall|j: int| 0 <= j < i ==> languages[j] != languages[i])
            ==> track_names(languages, labels)[i] == languages[i],
        labels[i].len() > 0 && (exists|j: int|
            0 <= j < languages.len() && j != i && languages[j] == languages[i]) ==> track_names(
            languages,
            labels,
        )[i] == languages[i] + " ("@ + labels[i] + ")"@,
{
    let lang = languages[i];
    let n = languages.len() as int;
    let name = track_names(languages, labels)[i];
    lemma_occurs_once(languages, i, n);
    lemma_occurs_first(languages, i);
    if exists|j: int| 0 <= j < languages.len() && j != i && languages[j] == languages[i] {
        let j = choose|j: int| 0 <= j < languages.len() && j != i && languages[j] == languages[i];
        if i < j {
            lemma_occurrences_grow(languages, lang, i + 1, j + 1);
            lemma_occurrences_grow(languages, lang, 0, i + 1);
            lemma_occurrences_grow(languages, lang, j + 1, n);
        } else {
            lemma_occurrences_grow(languages, lang, j + 1, i + 1);
            lemma_occurrences_grow(languages, lang, 0, j + 1);
            lemma_occurrences_grow(languages, lang, i + 1, n);
        }
    }
    assert(name.take(lang.len() as int) =~= lang);
}

proof fn lemma_occurs_once(languages: Seq<Seq<char>>, i: int, n: int)
    requires
        0 <= i < languages.len(),
        0 <= n <= languages.len(),
    ensures
        (forall|j: int| 0 <= j < languages.len() && j != i ==> languages[j] != languages[i])
            ==> occurrences(languages, languages[i], n) <= 1 && (n <= i ==> occurrences(
            languages,
            languages[i],
            n,
        ) == 0),
    decreases n,
{
    if n > 0 {
        lemma_occurs_once(languages, i, n - 1);
    }
}

proof fn lemma_occurs_first(languages: Seq<Seq<char>>, i: int)
    requires
        0 <= i < languages.len(),
    ensures
        (forall|j: int| 0 <= j < i ==> languages[j] != languages[i]) ==> occurrences(
            languages,
            languages[i],
            i + 1,
        ) == 1,
{
    lemma_absent(languages, languages[i], i);
}

proof fn lemma_absent(languages: Seq<Seq<char>>, lang: Seq<char>, n: int)
    requires
        0 <= n <= languages.len(),
    ensures
        (forall|j: int| 0 <= j < n ==> languages[j] != lang) ==> occurrences(languages, lang, n)
            == 0,
    decreases n,
{
    if n > 0 {
        lemma_absent(languages, lang, n - 1);
    }
}

/// A selected audio track is named after the language that the file gives it, and
/// where the title's streams say what it is coded in, repeats are told apart by
/// that.
pub proof fn audio_tracks_are_named_after_their_language(
    title: analysis::AnalysedTitleModel,
    input_path: Seq<char>,
    output_path: Seq<char>,
    probed: ProbedModel,
    selections: Seq<AudioSelection>,
    subtitle_indices: Seq<usize>,
    c: config::TranscodeConfigModel,
    i: int,
)
    requires
        title_job(title, input_path, output_path, probed, selections, subtitle_indices, c) is Ok,
        0 <= i < selections.len(),
    ensures
        ({
            let track = title_job(
                title,
                input_path,
                output_path,
                probed,
                selections,
                subtitle_indices,
                c,
            )->Ok_0.audio_tracks[i];
            let lang = match probed.audio[selections[i].stream_index_in_clip as int].1 {
                Some(lang) => lang,
                None => "und"@,
            };
            &&& track.name matches Some(name)
            &&& name.len() >= lang.len()
            &&& name.take(lang.len() as int) == lang
        }),
{
    audio_tracks_follow_the_selection(
        title,
        input_path,
        output_path,
        probed,
        selections,
        subtitle_indices,
        c,
        i,
    );
    let languages = audio_languages(probed, selections);
    let labels = codec_labels(title.audio_streams, selections);
    let names = track_names(languages, labels);
    let f = audio_tracks_at(probed, selections, names, c.audio_bitrate);
    gather::lemma_gather_succeeds(selections.len(), f);
    assert(f(i) is Ok);
    names_start_with_the_language(languages, labels, i);
}

/// Each audio and each subtitle stream of a file is found with its index, its
/// language and whether it is forced, behind those of its medium that come before it;
/// other streams are passed over.
pub proof fn streams_are_found_in_order(streams: Seq<StreamProbe>, s: StreamProbe)
    ensures
        sorted_streams(Seq::empty()).audio.len() == 0,
        sorted_streams(Seq::empty()).subtitle.len() == 0,
        ({
            let before = sorted_streams(streams);
            let after = sorted_streams(streams.push(s));
            &&& s.medium is Audio ==> after.audio == before.audio.push(
                (s.index, s.language.deep_view()),
            )
            &&& !(s.medium is Audio) ==> after.audio == before.audio
            &&& s.medium is Subtitle ==> after.subtitle == before.subtitle.push(
                ProbedSubtitleModel {
                    ffmpeg_index: s.index,
                    language: s.language.deep_view(),
                    forced: s.forced,
                },
            )
            &&& !(s.medium is Subtitle) ==> after.subtitle == before.subtitle
        }),
{
    assert(streams.push(s).drop_last() =~= streams);
}

/// Where a selected stream is not in the file, the first such audio stream is named;
/// where all audio streams are there, the first such subtitle stream.
pub proof fn the_first_missing_stream_is_named(
    title: analysis::AnalysedTitleModel,
    probed: ProbedModel,
    selections: Seq<AudioSelection>,
    subtitle_indices: Seq<usize>,
    bitrate: Option<u64>,
    k: int,
)
    ensures
        0 <= k < selections.len() && selections[k].stream_index_in_clip >= probed.audio.len() && (
        forall|i: int|
            0 <= i < k ==> (#[trigger] selections[i]).stream_index_in_clip < probed.audio.len())
            ==> resolved(title, probed, selections, subtitle_indices, bitrate) == Err::<
            (
                Seq<transcode::config::AudioConfigModel>,
                Seq<transcode::config::SubtitleConfigModel>,
                Seq<transcode::config::ChapterInfoModel>,
            ),
            Seq<char>,
        >(
            "Audio stream "@ + text::decimal(selections[k].stream_index_in_clip as nat)
                + " not found in file (file has "@ + text::decimal(probed.audio.len())
                + " audio streams)"@,
        ),
        0 <= k < subtitle_indices.len() && subtitle_indices[k] >= probed.subtitle.len() && (forall|
            i: int,
        |
            0 <= i < k ==> #[trigger] subtitle_indices[i] < probed.subtitle.len()) && (forall|
            i: int,
        |
            0 <= i < selections.len() ==> (#[trigger] selections[i]).stream_index_in_clip
                < probed.audio.len()) ==> resolved(
            title,
            probed,
            selections,
            subtitle_indices,
            bitrate,
        ) == Err::<
            (
                Seq<transcode::config::AudioConfigModel>,
                Seq<transcode::config::SubtitleConfigModel>,
                Seq<transcode::config::ChapterInfoModel>,
            ),
            Seq<char>,
        >(
            "Subtitle stream "@ + text::decimal(subtitle_indices[k] as nat)
                + " not found in file (file has "@ + text::decimal(probed.subtitle.len())
                + " subtitle streams)"@,
        ),
{
    let names = track_names(
        audio_languages(probed, selections),
        codec_labels(title.audio_streams, selections),
    );
    let f = audio_tracks_at(probed, selections, names, bitrate);
    let sub_names = track_names(
        subtitle_languages(probed, subtitle_indices),
        no_labels(subtitle_indices.len()),
    );
    let g = subtitle_tracks_at(probed, subtitle_indices, sub_names);
    if 0 <= k < selections.len() && selections[k].stream_index_in_clip >= probed.audio.len() && (
    forall|i: int|
        0 <= i < k ==> (#[trigger] selections[i]).stream_index_in_clip < probed.audio.len()) {
        assert forall|i: int| 0 <= i < k implies #[trigger] f(i) is Ok by {
            assert(selections[i].stream_index_in_clip < probed.audio.len());
        }
        gather::lemma_gather_all(k as nat, f);
        assert(f(k) is Err);
        gather::lemma_gather_fails((k + 1) as nat, selections.len(), f);
    }
    if 0 <= k < subtitle_indices.len() && subtitle_indices[k] >= probed.subtitle.len() && (forall|
        i: int,
    |
        0 <= i < k ==> #[trigger] subtitle_indices[i] < probed.subtitle.len()) && (forall|i: int|
        0 <= i < selections.len() ==> (#[trigger] selections[i]).stream_index_in_clip
            < probed.audio.len()) {
        assert forall|i: int| 0 <= i < selections.len() implies #[trigger] f(i) is Ok by {
            assert(selections[i].stream_index_in_clip < probed.audio.len());
        }
        gather::lemma_gather_all(selections.len(), f);
        assert forall|i: int| 0 <= i < k implies #[trigger] g(i) is Ok by {
            assert(subtitle_indices[i] < probed.subtitle.len());
        }
        gather::lemma_gather_all(k as nat, g);
        assert(g(k) is Err);
        gather::lemma_gather_fails((k + 1) as nat, subtitle_indices.len(), g);
    }
}

/// The label of a selected stream is the name of what the first stream at its place
/// is coded in, with a note where it is to be encoded; a place without a stream has
/// none.
pub proof fn labels_name_the_coding(
    streams: Seq<analysis::AudioStreamModel>,
    sel: AudioSelection,
    k: int,
)
    ensures
        0 <= k < streams.len() && streams[k].index_in_clip == sel.stream_index_in_clip && (forall|
            i: int,
        |
            0 <= i < k ==> (#[trigger] streams[i]).index_in_clip != sel.stream_index_in_clip) ==> {
            &&& sel.action is Copy ==> codec_label(streams, sel) == tui::coding_name(
                streams[k].coding_type,
            )
            &&& sel.action is EncodeAac ==> codec_label(streams, sel) == tui::coding_name(
                streams[k].coding_type,
            ) + " → AAC"@
        },
        (forall|i: int|
            0 <= i < streams.len() ==> (#[trigger] streams[i]).index_in_clip
                != sel.stream_index_in_clip) ==> codec_label(streams, sel).len() == 0,
    decreases streams.len(),
{
    if streams.len() > 0 && streams[0].index_in_clip != sel.stream_index_in_clip {
        let rest = streams.skip(1);
        labels_name_the_coding(rest, sel, k - 1);
        if 0 <= k < streams.len() && (forall|i: int|
            0 <= i < k ==> (#[trigger] streams[i]).index_in_clip != sel.stream_index_in_clip) {
            assert forall|i: int| 0 <= i < k - 1 implies (#[trigger] rest[i]).index_in_clip
                != sel.stream_index_in_clip by {
                assert(rest[i] == streams[i + 1]);
            }
        }
        if forall|i: int|
            0 <= i < streams.len() ==> (#[trigger] streams[i]).index_in_clip
                != sel.stream_index_in_clip {
            assert forall|i: int| 0 <= i < rest.len() implies (#[trigger] rest[i]).index_in_clip
                != sel.stream_index_in_clip by {
                assert(rest[i] == streams[i + 1]);
            }
        }
    }
}

/// The titles of a show are ripped one after the other; where one cannot be, those
/// before it are, and what is missing is said.
pub proof fn shows_are_ripped_in_order(
    a: analysis::TitleAnalysisModel,
    show: tui::ShowChoiceModel,
    c: config::ConfigModel,
    dir: Seq<char>,
    k: int,
)
    requires
        c.show_dir == Some(dir),
    ensures
        (forall|i: int|
            0 <= i < show.title_indices.len() ==> tui::title_place(
                a.titles,
                #[trigger] show.title_indices[i],
            ) < a.titles.len()) ==> {
            let (steps, failure) = show_steps(a, show, c);
            &&& failure is None
            &&& steps.len() == show.title_indices.len()
            &&& 0 <= k < steps.len() ==> Ok::<RipStepModel, Seq<char>>(steps[k]) == show_step(
                a,
                show,
                dir,
                c.temp_dir,
                k,
            )
        },
        0 <= k < show.title_indices.len() && tui::title_place(a.titles, show.title_indices[k])
            >= a.titles.len() && (forall|i: int|
            0 <= i < k ==> tui::title_place(a.titles, #[trigger] show.title_indices[i])
                < a.titles.len()) ==> {
            let (steps, failure) = show_steps(a, show, c);
            &&& failure == Some(
                "Title "@ + text::decimal(show.title_indices[k] as nat) + " not found"@,
            )
            &&& steps.len() == k
        },
{
    let step = show_steps_at(a, show, dir, c.temp_dir);
    let n = show.title_indices.len() as int;
    if forall|i: int|
        0 <= i < n ==> tui::title_place(a.titles, #[trigger] show.title_indices[i])
            < a.titles.len() {
        assert forall|i: int| 0 <= i < n implies #[trigger] step(i) is Ok by {
            assert(tui::title_place(a.titles, show.title_indices[i]) < a.titles.len());
        }
        lemma_steps_succeed(n, step);
        if 0 <= k < n {
            assert(step(k) == show_step(a, show, dir, c.temp_dir, k));
        }
    }
    if 0 <= k < n && tui::title_place(a.titles, show.title_indices[k]) >= a.titles.len() && (forall|
        i: int,
    |
        0 <= i < k ==> tui::title_place(a.titles, #[trigger] show.title_indices[i])
            < a.titles.len()) {
        assert forall|i: int| 0 <= i < k implies #[trigger] step(i) is Ok by {
            assert(tui::title_place(a.titles, show.title_indices[i]) < a.titles.len());
        }
        lemma_steps_succeed(k, step);
        assert(step(k) is Err);
        lemma_steps_fail(k, n, step);
    }
}

proof fn lemma_steps_succeed(n: int, step: spec_fn(int) -> Result<RipStepModel, Seq<char>>)
    requires
        0 <= n,
        forall|i: int| 0 <= i < n ==> #[trigger] step(i) is Ok,
    ensures
        steps_before_failure(n, step).1 is None,
        steps_before_failure(n, step).0.len() == n,
        forall|i: int|
            0 <= i < n ==> Ok::<RipStepModel, Seq<char>>(
                #[trigger] steps_before_failure(n, step).0[i],
            ) == step(i),
    decreases n,
{
    if n > 0 {
        lemma_steps_succeed(n - 1, step);
        assert(step(n - 1) is Ok);
    }
}

proof fn lemma_steps_fail(k: int, n: int, step: spec_fn(int) -> Result<RipStepModel, Seq<char>>)
    requires
        0 <= k < n,
        steps_before_failure(k, step).1 is None,
        step(k) is Err,
    ensures
        steps_before_failure(n, step).0 == steps_before_failure(k, step).0,
        steps_before_failure(n, step).1 == Some(step(k)->Err_0),
    decreases n,
{
    if n > k + 1 {
        lemma_steps_fail(k, n - 1, step);
    }
}

/// A movie is ripped from the chosen title to its place below the movie directory;
/// each title of a show to that of its episode below the show directory, the
/// episodes counted up from the starting one.
pub proof fn rips_go_to_their_places(
    a: analysis::TitleAnalysisModel,
    movie: tui::MovieChoiceModel,
    show: tui::ShowChoiceModel,
    c: config::ConfigModel,
    i: int,
)
    requires
        0 <= i < show.title_indices.len(),
        show.start_episode + i <= u32::MAX,
    ensures
        movie_step(a, movie, c) matches Ok(step) ==> {
            &&& step.title_idx == movie.title_idx
            &&& step.temp_path == c.temp_dir + "/rip_"@ + text::decimal(movie.title_idx as nat)
                + ".m2ts"@
            &&& 0 <= step.place < a.titles.len()
            &&& a.titles[step.place].index == movie.title_idx
            &&& c.movie_dir matches Some(dir)
            &&& step.output_path == jellyfin::movie_location(
                dir,
                movie.tmdb.title,
                movie.tmdb.year,
                movie.tmdb.id,
            )
        },
        c.show_dir matches Some(dir) ==> (show_step(a, show, dir, c.temp_dir, i) matches Ok(
            step,
        ) ==> {
            &&& step.title_idx == show.title_indices[i]
            &&& step.temp_path == c.temp_dir + "/rip_"@ + text::decimal(
                show.title_indices[i] as nat,
            ) + ".m2ts"@
            &&& 0 <= step.place < a.titles.len()
            &&& a.titles[step.place].index == show.title_indices[i]
            &&& step.output_path == jellyfin::episode_location(
                dir,
                show.tmdb.name,
                show.tmdb.year,
                show.tmdb.id,
                show.season,
                (show.start_episode + i) as u32,
            )
        }),
        c.movie_dir is None ==> movie_step(a, movie, c) is Err,
        c.movie_dir is Some && (exists|k: int|
            0 <= k < a.titles.len() && (#[trigger] a.titles[k]).index == movie.title_idx)
            ==> movie_step(a, movie, c) is Ok,
{
    tui::places_are_found(a.titles, movie.title_idx);
    tui::places_are_found(a.titles, show.title_indices[i]);
}

} // verus!
