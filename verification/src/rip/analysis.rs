//! What is on a disc: its titles, and whether they look like a movie or like
//! the episodes of a show.
use vstd::prelude::*;

use crate::bluray::{BdChapter, BdStream, BdTitle};
use crate::disc::DiscFormat;
use crate::{bluray, list, text};

verus! {

#[derive(Debug, Clone)]
pub struct AnalysedTitle {
    pub index: u32,
    pub playlist: u32,
    pub duration_secs: u64,
    pub chapter_count: u32,
    pub chapters: Vec<ChapterMark>,
    pub audio_streams: Vec<AudioStreamInfo>,
    pub subtitle_streams: Vec<SubtitleStreamInfo>,
    pub score: i32,
}

/// What an `AnalysedTitle` says.
pub ghost struct AnalysedTitleModel {
    pub index: u32,
    pub playlist: u32,
    pub duration_secs: u64,
    pub chapter_count: u32,
    pub chapters: Seq<ChapterMark>,
    pub audio_streams: Seq<AudioStreamModel>,
    pub subtitle_streams: Seq<SubtitleStreamModel>,
    pub score: i32,
}

impl DeepView for AnalysedTitle {
    type V = AnalysedTitleModel;

    open spec fn deep_view(&self) -> AnalysedTitleModel {
        AnalysedTitleModel {
            index: self.index,
            playlist: self.playlist,
            duration_secs: self.duration_secs,
            chapter_count: self.chapter_count,
            chapters: self.chapters@,
            audio_streams: self.audio_streams.deep_view(),
            subtitle_streams: self.subtitle_streams.deep_view(),
            score: self.score,
        }
    }
}

/// A chapter; times in 90 kHz ticks.
#[derive(Debug, Clone, Copy, PartialEq, Eq, Structural)]
pub struct ChapterMark {
    pub index: u32,
    pub start_ticks: u64,
    pub duration_ticks: u64,
}

#[derive(Debug, Clone)]
pub struct AudioStreamInfo {
    pub index_in_clip: usize,
    /// Packet identifier, or the MPEG-PS stream id on a DVD.
    pub pid: u16,
    pub language: String,
    pub coding_type: u8,
}

/// What an `AudioStreamInfo` says.
pub ghost struct AudioStreamModel {
    pub index_in_clip: usize,
    pub pid: u16,
    pub language: Seq<char>,
    pub coding_type: u8,
}

impl DeepView for AudioStreamInfo {
    type V = AudioStreamModel;

    open spec fn deep_view(&self) -> AudioStreamModel {
        AudioStreamModel {
            index_in_clip: self.index_in_clip,
            pid: self.pid,
            language: self.language@,
            coding_type: self.coding_type,
        }
    }
}

#[derive(Debug, Clone)]
pub struct SubtitleStreamInfo {
    pub index_in_clip: usize,
    /// Packet identifier, or the MPEG-PS stream id on a DVD.
    pub pid: u16,
    pub language: String,
    pub forced: bool,
}

/// What a `SubtitleStreamInfo` says.
pub ghost struct SubtitleStreamModel {
    pub index_in_clip: usize,
    pub pid: u16,
    pub language: Seq<char>,
    pub forced: bool,
}

impl DeepView for SubtitleStreamInfo {
    type V = SubtitleStreamModel;

    open spec fn deep_view(&self) -> SubtitleStreamModel {
        SubtitleStreamModel {
            index_in_clip: self.index_in_clip,
            pid: self.pid,
            language: self.language@,
            forced: self.forced,
        }
    }
}

#[derive(Debug, Clone)]
pub enum DiscType {
    Movie { title_idx: u32 },
    Show { episode_indices: Vec<u32> },
}

/// What a `DiscType` says.
pub ghost enum DiscTypeModel {
    Movie { title_idx: u32 },
    Show { episode_indices: Seq<u32> },
}

impl DeepView for DiscType {
    type V = DiscTypeModel;

    open spec fn deep_view(&self) -> DiscTypeModel {
        match *self {
            DiscType::Movie { title_idx } => DiscTypeModel::Movie { title_idx },
            DiscType::Show { episode_indices } => DiscTypeModel::Show {
                episode_indices: episode_indices@,
            },
        }
    }
}

#[derive(Debug, Clone)]
pub struct TitleAnalysis {
    pub titles: Vec<AnalysedTitle>,
    pub main_title_idx: u32,
    pub detected_type: DiscType,
    pub format: DiscFormat,
}

/// What a `TitleAnalysis` says.
pub ghost struct TitleAnalysisModel {
    pub titles: Seq<AnalysedTitleModel>,
    pub main_title_idx: u32,
    pub detected_type: DiscTypeModel,
    pub format: DiscFormat,
}

impl DeepView for TitleAnalysis {
    type V = TitleAnalysisModel;

    open spec fn deep_view(&self) -> TitleAnalysisModel {
        TitleAnalysisModel {
            titles: self.titles.deep_view(),
            main_title_idx: self.main_title_idx,
            detected_type: self.detected_type.deep_view(),
            format: self.format,
        }
    }
}

// --- the titles of a Blu-ray disc ---

/// The language code of a stream, `und` where it is not text.
pub open spec fn lang_of(lang: Seq<u8>) -> Seq<char> {
    match text::decoded(text::before_zero(lang)) {
        Some(code) => code,
        None => "und"@,
    }
}

/// The language code of a stream, `und` where it is not text.
pub fn lang_from_bytes(lang: &[u8; 4]) -> (r: String)
    ensures
        r@ == lang_of(lang@),
{
    match text::decode_before_zero(lang.as_slice()) {
        Some(code) => code,
        None => "und".to_owned(),
    }
}

/// The chapters of a title.
pub open spec fn chapter_marks(chapters: Seq<BdChapter>) -> Seq<ChapterMark> {
    chapters.map_values(
        |ch: BdChapter|
            ChapterMark { index: ch.idx, start_ticks: ch.start, duration_ticks: ch.duration },
    )
}

fn mark_chapters(chapters: &Vec<BdChapter>) -> (r: Vec<ChapterMark>)
    ensures
        r@ == chapter_marks(chapters@),
{
    let mut marks: Vec<ChapterMark> = Vec::new();
    let mut i: usize = 0;
    while i < chapters.len()
        invariant
            i <= chapters.len(),
            marks@ == chapter_marks(chapters@).take(i as int),
        decreases chapters.len() - i,
    {
        let ch = chapters[i];
        marks.push(
            ChapterMark { index: ch.idx, start_ticks: ch.start, duration_ticks: ch.duration },
        );
        assert(marks@ =~= chapter_marks(chapters@).take(i + 1));
        i = i + 1;
    }
    assert(chapter_marks(chapters@).take(i as int) =~= chapter_marks(chapters@));
    marks
}

/// The audio streams of a clip, numbered in order.
pub open spec fn audio_infos(streams: Seq<BdStream>) -> Seq<AudioStreamModel> {
    Seq::new(
        streams.len(),
        |i: int|
            AudioStreamModel {
                index_in_clip: i as usize,
                pid: streams[i].pid,
                language: lang_of(streams[i].lang@),
                coding_type: streams[i].coding_type,
            },
    )
}

fn describe_audio(streams: &Vec<BdStream>) -> (r: Vec<AudioStreamInfo>)
    ensures
        r.deep_view() == audio_infos(streams@),
{
    let mut infos: Vec<AudioStreamInfo> = list::empty();
    let mut i: usize = 0;
    while i < streams.len()
        invariant
            i <= streams.len(),
            infos.deep_view() == audio_infos(streams@).take(i as int),
        decreases streams.len() - i,
    {
        let info = AudioStreamInfo {
            index_in_clip: i,
            pid: streams[i].pid,
            language: lang_from_bytes(&streams[i].lang),
            coding_type: streams[i].coding_type,
        };
        list::push(&mut infos, info);
        assert(infos.deep_view() =~= audio_infos(streams@).take(i + 1));
        i = i + 1;
    }
    assert(audio_infos(streams@).take(i as int) =~= audio_infos(streams@));
    infos
}

/// The subtitle streams of a clip, numbered in order. The disc does not say
/// which of them are forced.
pub open spec fn subtitle_infos(streams: Seq<BdStream>) -> Seq<SubtitleStreamModel> {
    Seq::new(
        streams.len(),
        |i: int|
            SubtitleStreamModel {
                index_in_clip: i as usize,
                pid: streams[i].pid,
                language: lang_of(streams[i].lang@),
                forced: false,
            },
    )
}

fn describe_subtitles(streams: &Vec<BdStream>) -> (r: Vec<SubtitleStreamInfo>)
    ensures
        r.deep_view() == subtitle_infos(streams@),
{
    let mut infos: Vec<SubtitleStreamInfo> = list::empty();
    let mut i: usize = 0;
    while i < streams.len()
        invariant
            i <= streams.len(),
            infos.deep_view() == subtitle_infos(streams@).take(i as int),
        decreases streams.len() - i,
    {
        let info = SubtitleStreamInfo {
            index_in_clip: i,
            pid: streams[i].pid,
            language: lang_from_bytes(&streams[i].lang),
            forced: false,
        };
        list::push(&mut infos, info);
        assert(infos.deep_view() =~= subtitle_infos(streams@).take(i + 1));
        i = i + 1;
    }
    assert(subtitle_infos(streams@).take(i as int) =~= subtitle_infos(streams@));
    infos
}

/// A title before it is scored. Its streams are those of its first clip.
pub open spec fn described(t: BdTitle) -> AnalysedTitleModel {
    AnalysedTitleModel {
        index: t.idx,
        playlist: t.playlist,
        duration_secs: t.duration / bluray::TICKS_PER_SECOND,
        chapter_count: t.chapter_count,
        chapters: chapter_marks(t.chapters@),
        audio_streams: if t.clips.len() > 0 {
            audio_infos(t.clips[0].audio_streams@)
        } else {
            Seq::empty()
        },
        subtitle_streams: if t.clips.len() > 0 {
            subtitle_infos(t.clips[0].pg_streams@)
        } else {
            Seq::empty()
        },
        score: 0,
    }
}

fn describe(t: &BdTitle) -> (r: AnalysedTitle)
    ensures
        r.deep_view() == described(*t),
{
    let audio_streams: Vec<AudioStreamInfo>;
    let subtitle_streams: Vec<SubtitleStreamInfo>;
    if t.clips.len() > 0 {
        audio_streams = describe_audio(&t.clips[0].audio_streams);
        subtitle_streams = describe_subtitles(&t.clips[0].pg_streams);
    } else {
        audio_streams = list::empty();
        subtitle_streams = list::empty();
    }
    AnalysedTitle {
        index: t.idx,
        playlist: t.playlist,
        duration_secs: t.duration / bluray::TICKS_PER_SECOND,
        chapter_count: t.chapter_count,
        chapters: mark_chapters(&t.chapters),
        audio_streams,
        subtitle_streams,
        score: 0,
    }
}

// --- scores ---

/// How likely a title is to be wanted: the main title counts most, very short
/// titles count against, long ones a little for.
pub open spec fn score_of(index: u32, duration_secs: u64, main_title: u32) -> int {
    let main: int = if index == main_title {
        5
    } else {
        0
    };
    let length: int = if duration_secs < 300 {
        -1
    } else if duration_secs > 600 {
        1
    } else {
        0
    };
    main + length
}

/// How likely a title is to be wanted.
pub fn title_score(index: u32, duration_secs: u64, main_title: u32) -> (r: i32)
    ensures
        r == score_of(index, duration_secs, main_title),
{
    let mut score: i32 = 0;
    if index == main_title {
        score = score + 5;
    }
    if duration_secs < 300 {
        score = score - 1;
    } else if duration_secs > 600 {
        score = score + 1;
    }
    score
}

/// A title with its score.
pub open spec fn scored(t: AnalysedTitleModel, main_title: u32) -> AnalysedTitleModel {
    AnalysedTitleModel { score: score_of(t.index, t.duration_secs, main_title) as i32, ..t }
}

/// All titles with their scores.
pub open spec fn scored_titles(titles: Seq<AnalysedTitleModel>, main_title: u32) -> Seq<
    AnalysedTitleModel,
> {
    titles.map_values(|t: AnalysedTitleModel| scored(t, main_title))
}

/// Does one title go before another: by score descending, then by index
/// ascending?
pub open spec fn precedes(a: AnalysedTitleModel, b: AnalysedTitleModel) -> bool {
    a.score > b.score || a.score == b.score && a.index < b.index
}

/// The first place in a list where a title goes before the one that stands there.
pub open spec fn place_of(titles: Seq<AnalysedTitleModel>, t: AnalysedTitleModel) -> int
    decreases titles.len(),
{
    if titles.len() == 0 || precedes(t, titles[0]) {
        0
    } else {
        1 + place_of(titles.skip(1), t)
    }
}

/// The titles by score and index; titles that tie stay in order.
pub open spec fn ranked(titles: Seq<AnalysedTitleModel>) -> Seq<AnalysedTitleModel>
    decreases titles.len(),
{
    if titles.len() == 0 {
        titles
    } else {
        let before = ranked(titles.drop_last());
        before.insert(place_of(before, titles.last()), titles.last())
    }
}

proof fn lemma_place_of(titles: Seq<AnalysedTitleModel>, t: AnalysedTitleModel, n: int)
    requires
        0 <= n <= titles.len(),
        forall|i: int| 0 <= i < n ==> !precedes(t, #[trigger] titles[i]),
        n < titles.len() ==> precedes(t, titles[n]),
    ensures
        place_of(titles, t) == n,
    decreases titles.len(),
{
    if n > 0 {
        let rest = titles.skip(1);
        assert forall|i: int| 0 <= i < n - 1 implies !precedes(t, #[trigger] rest[i]) by {
            assert(rest[i] == titles[i + 1]);
        }
        lemma_place_of(rest, t, n - 1);
    }
}

proof fn lemma_place_in_range(titles: Seq<AnalysedTitleModel>, t: AnalysedTitleModel)
    ensures
        0 <= place_of(titles, t) <= titles.len(),
        forall|i: int| 0 <= i < place_of(titles, t) ==> !precedes(t, #[trigger] titles[i]),
        place_of(titles, t) < titles.len() ==> precedes(t, titles[place_of(titles, t)]),
    decreases titles.len(),
{
    if titles.len() > 0 && !precedes(t, titles[0]) {
        let rest = titles.skip(1);
        lemma_place_in_range(rest, t);
        assert forall|i: int| 0 <= i < place_of(titles, t) implies !precedes(
            t,
            #[trigger] titles[i],
        ) by {
            if i > 0 {
                assert(rest[i - 1] == titles[i]);
            }
        }
        if place_of(titles, t) < titles.len() {
            assert(rest[place_of(rest, t)] == titles[place_of(titles, t)]);
        }
    }
}

/// Ranking keeps every title and puts none behind one that it goes before.
pub proof fn ranking_sorts(titles: Seq<AnalysedTitleModel>)
    ensures
        ranked(titles).to_multiset() == titles.to_multiset(),
        ranked(titles).len() == titles.len(),
        forall|i: int, j: int|
            0 <= i < j < ranked(titles).len() ==> !precedes(
                #[trigger] ranked(titles)[j],
                #[trigger] ranked(titles)[i],
            ),
    decreases titles.len(),
{
    if titles.len() > 0 {
        let rest = titles.drop_last();
        let t = titles.last();
        let before = ranked(rest);
        ranking_sorts(rest);
        lemma_place_in_range(before, t);
        let n = place_of(before, t);
        assert(titles =~= rest.push(t));
        vstd::seq_lib::to_multiset_insert(before, n, t);
        vstd::seq_lib::to_multiset_build(rest, t);
        let after = ranked(titles);
        assert(after == before.insert(n, t));
        assert forall|i: int, j: int| 0 <= i < j < after.len() implies !precedes(
            #[trigger] after[j],
            #[trigger] after[i],
        ) by {
            if j < n {
                assert(after[i] == before[i] && after[j] == before[j]);
            } else if j == n {
                assert(after[i] == before[i]);
            } else if i < n {
                assert(after[i] == before[i] && after[j] == before[j - 1]);
            } else if i == n {
                assert(after[j] == before[j - 1]);
                if j - 1 > n {
                    assert(!precedes(before[j - 1], before[n]));
                }
            } else {
                assert(after[i] == before[i - 1] && after[j] == before[j - 1]);
            }
        }
    } else {
        assert(ranked(titles) == titles);
    }
}

/// Sets the scores and sorts by them.
fn rank(titles: &mut Vec<AnalysedTitle>, main_title: u32)
    ensures
        final(titles).deep_view() == ranked(scored_titles(old(titles).deep_view(), main_title)),
{
    let ghost all = titles.deep_view();
    let ghost marked = scored_titles(all, main_title);
    let mut done: Vec<AnalysedTitle> = list::empty();
    let mut i: usize = 0;
    let n: usize = titles.len();
    assert(marked.take(0) =~= Seq::empty());
    assert(all.skip(0) =~= all);
    while i < n
        invariant
            i <= n,
            n == all.len(),
            marked == scored_titles(all, main_title),
            titles.deep_view() == all.skip(i as int),
            titles.len() == n - i,
            done.deep_view() == ranked(marked.take(i as int)),
            done.len() == i,
        decreases n - i,
    {
        let ghost rest = titles.deep_view();
        let mut t = titles.remove(0);
        assert(rest[0] == t.deep_view());
        assert(titles.deep_view() =~= rest.skip(1));
        assert(rest.skip(1) =~= all.skip(i + 1));
        t.score = title_score(t.index, t.duration_secs, main_title);
        let ghost model = t.deep_view();
        let ghost before = done.deep_view();
        assert(model == marked[i as int]);
        let mut p: usize = 0;
        while p < done.len() && !(t.score > done[p].score || t.score == done[p].score && t.index
            < done[p].index)
            invariant
                p <= done.len(),
                before == done.deep_view(),
                model == t.deep_view(),
                forall|k: int| 0 <= k < p ==> !precedes(model, #[trigger] before[k]),
            decreases done.len() - p,
        {
            assert(before[p as int] == done[p as int].deep_view());
            p = p + 1;
        }
        proof {
            if p < done.len() {
                assert(before[p as int] == done[p as int].deep_view());
            }
            lemma_place_of(before, model, p as int);
            assert(marked.take(i + 1).drop_last() =~= marked.take(i as int));
        }
        done.insert(p, t);
        assert(done.deep_view() =~= before.insert(p as int, model));
        i = i + 1;
    }
    assert(marked.take(n as int) =~= marked);
    *titles = done;
}

// --- movie or show ---

/// The place of a language in a list that is in order: behind all that stand
/// before it.
pub open spec fn language_place(key: Seq<Seq<char>>, lang: Seq<char>) -> int
    decreases key.len(),
{
    if key.len() == 0 || !text::text_less(key[0], lang) {
        0
    } else {
        1 + language_place(key.skip(1), lang)
    }
}

/// A list in order with one more language, unless it is there already.
pub open spec fn with_language(key: Seq<Seq<char>>, lang: Seq<char>) -> Seq<Seq<char>> {
    let n = language_place(key, lang);
    if n < key.len() && key[n] == lang {
        key
    } else {
        key.insert(n, lang)
    }
}

/// The known languages of some audio streams, in order and each once.
pub open spec fn language_key(streams: Seq<AudioStreamModel>) -> Seq<Seq<char>>
    decreases streams.len(),
{
    if streams.len() == 0 {
        Seq::empty()
    } else if streams.last().language == "und"@ {
        language_key(streams.drop_last())
    } else {
        with_language(language_key(streams.drop_last()), streams.last().language)
    }
}

/// Each language stands before the next.
pub open spec fn ascending(key: Seq<Seq<char>>) -> bool {
    forall|i: int, j: int|
        0 <= i < j < key.len() ==> text::text_less(#[trigger] key[i], #[trigger] key[j])
}

proof fn lemma_language_place(key: Seq<Seq<char>>, lang: Seq<char>, n: int)
    requires
        0 <= n <= key.len(),
        forall|i: int| 0 <= i < n ==> text::text_less(#[trigger] key[i], lang),
        n < key.len() ==> !text::text_less(key[n], lang),
    ensures
        language_place(key, lang) == n,
    decreases key.len(),
{
    if n > 0 {
        let rest = key.skip(1);
        assert forall|i: int| 0 <= i < n - 1 implies text::text_less(#[trigger] rest[i], lang) by {
            assert(rest[i] == key[i + 1]);
        }
        lemma_language_place(rest, lang, n - 1);
    }
}

proof fn lemma_language_place_in_range(key: Seq<Seq<char>>, lang: Seq<char>)
    ensures
        0 <= language_place(key, lang) <= key.len(),
        forall|i: int|
            0 <= i < language_place(key, lang) ==> text::text_less(#[trigger] key[i], lang),
        language_place(key, lang) < key.len() ==> !text::text_less(
            key[language_place(key, lang)],
            lang,
        ),
    decreases key.len(),
{
    if key.len() > 0 && text::text_less(key[0], lang) {
        let rest = key.skip(1);
        lemma_language_place_in_range(rest, lang);
        assert forall|i: int| 0 <= i < language_place(key, lang) implies text::text_less(
            #[trigger] key[i],
            lang,
        ) by {
            if i > 0 {
                assert(rest[i - 1] == key[i]);
            }
        }
        if language_place(key, lang) < key.len() {
            assert(rest[language_place(rest, lang)] == key[language_place(key, lang)]);
        }
    }
}

/// Does a stream have a language?
pub open spec fn speaks(streams: Seq<AudioStreamModel>, lang: Seq<char>) -> bool {
    exists|i: int| 0 <= i < streams.len() && (#[trigger] streams[i]).language == lang
}

/// A key is in order, and it holds a language exactly where a stream has it.
pub proof fn language_key_is_a_set(streams: Seq<AudioStreamModel>, lang: Seq<char>)
    ensures
        ascending(language_key(streams)),
        language_key(streams).contains(lang) <==> lang != "und"@ && speaks(streams, lang),
    decreases streams.len(),
{
    if streams.len() > 0 {
        let rest = streams.drop_last();
        let last = streams.last().language;
        let before = language_key(rest);
        let after = language_key(streams);
        language_key_is_a_set(rest, lang);
        if last != "und"@ {
            lemma_with_language(before, last, lang);
        }
        if speaks(rest, lang) {
            let i = choose|i: int| 0 <= i < rest.len() && (#[trigger] rest[i]).language == lang;
            assert(streams[i] == rest[i]);
        }
        if speaks(streams, lang) {
            let i = choose|i: int|
                0 <= i < streams.len() && (#[trigger] streams[i]).language == lang;
            if i < rest.len() {
                assert(rest[i] == streams[i]);
            } else {
                assert(lang == last);
            }
        }
        if last == lang {
            assert(streams[streams.len() - 1].language == lang);
        }
    }
}

proof fn lemma_with_language(key: Seq<Seq<char>>, lang: Seq<char>, other: Seq<char>)
    requires
        ascending(key),
    ensures
        ascending(with_language(key, lang)),
        with_language(key, lang).contains(other) <==> key.contains(other) || other == lang,
{
    lemma_language_place_in_range(key, lang);
    let n = language_place(key, lang);
    if n < key.len() && key[n] == lang {
        assert(key.contains(lang));
    } else {
        let after = key.insert(n, lang);
        assert(after[n] == lang);
        if key.contains(other) {
            let i = choose|i: int| 0 <= i < key.len() && key[i] == other;
            if i < n {
                assert(after[i] == other);
            } else {
                assert(after[i + 1] == other);
            }
        }
        if after.contains(other) && other != lang {
            let i = choose|i: int| 0 <= i < after.len() && after[i] == other;
            if i < n {
                assert(key[i] == other);
            } else {
                assert(key[i - 1] == other);
            }
        }
        assert forall|i: int, j: int| 0 <= i < j < after.len() implies text::text_less(
            #[trigger] after[i],
            #[trigger] after[j],
        ) by {
            if i == n {
                assert(after[j] == key[j - 1]);
                text::text_order_is_total(key[n], lang);
                if j - 1 > n {
                    text::text_order_is_transitive(lang, key[n], key[j - 1]);
                }
            } else if j == n {
                assert(after[i] == key[i]);
            } else {
                assert(after[i] == if i < n {
                    key[i]
                } else {
                    key[i - 1]
                });
                assert(after[j] == if j < n {
                    key[j]
                } else {
                    key[j - 1]
                });
            }
        }
    }
}

/// Two keys in order that hold the same languages are equal.
pub proof fn ordered_keys_are_unique(a: Seq<Seq<char>>, b: Seq<Seq<char>>)
    requires
        ascending(a),
        ascending(b),
        forall|lang: Seq<char>| a.contains(lang) <==> b.contains(lang),
    ensures
        a == b,
    decreases a.len(),
{
    if a.len() == 0 {
        if b.len() > 0 {
            assert(b.contains(b[0]));
            assert(a.contains(b[0]));
        }
        assert(a =~= b);
    } else {
        assert(a.contains(a[0]));
        let i = choose|i: int| 0 <= i < b.len() && b[i] == a[0];
        assert(b.contains(b[0]));
        let j = choose|j: int| 0 <= j < a.len() && a[j] == b[0];
        if i > 0 {
            assert(text::text_less(b[0], b[i]));
            text::text_order_is_total(a[0], b[0]);
            if j > 0 {
                assert(text::text_less(a[0], a[j]));
            }
        }
        assert(a[0] == b[0]);
        let x = a.skip(1);
        let y = b.skip(1);
        assert forall|lang: Seq<char>| x.contains(lang) <==> y.contains(lang) by {
            text::text_order_is_total(a[0], a[0]);
            if x.contains(lang) {
                let k = choose|k: int| 0 <= k < x.len() && x[k] == lang;
                assert(a[k + 1] == lang);
                assert(a.contains(lang));
                let m = choose|m: int| 0 <= m < b.len() && b[m] == lang;
                assert(text::text_less(a[0], a[k + 1]));
                assert(y[m - 1] == lang);
            }
            if y.contains(lang) {
                let k = choose|k: int| 0 <= k < y.len() && y[k] == lang;
                assert(b[k + 1] == lang);
                assert(b.contains(lang));
                let m = choose|m: int| 0 <= m < a.len() && a[m] == lang;
                assert(text::text_less(b[0], b[k + 1]));
                assert(x[m - 1] == lang);
            }
        }
        assert forall|p: int, q: int| 0 <= p < q < x.len() implies text::text_less(
            #[trigger] x[p],
            #[trigger] x[q],
        ) by {
            assert(x[p] == a[p + 1] && x[q] == a[q + 1]);
        }
        assert forall|p: int, q: int| 0 <= p < q < y.len() implies text::text_less(
            #[trigger] y[p],
            #[trigger] y[q],
        ) by {
            assert(y[p] == b[p + 1] && y[q] == b[q + 1]);
        }
        ordered_keys_are_unique(x, y);
        assert(a =~= seq![a[0]] + x);
        assert(b =~= seq![b[0]] + y);
    }
}

/// Two titles have the same key exactly where the same languages, unknown ones
/// left out, occur among their streams, whatever their order and number.
pub proof fn keys_compare_language_sets(a: Seq<AudioStreamModel>, b: Seq<AudioStreamModel>)
    ensures
        language_key(a) == language_key(b) <==> forall|lang: Seq<char>|
            lang != "und"@ ==> (#[trigger] speaks(a, lang) <==> speaks(b, lang)),
{
    if forall|lang: Seq<char>|
        lang != "und"@ ==> (#[trigger] speaks(a, lang) <==> speaks(b, lang)) {
        assert forall|lang: Seq<char>| language_key(a).contains(lang) <==> language_key(
            b,
        ).contains(lang) by {
            language_key_is_a_set(a, lang);
            language_key_is_a_set(b, lang);
            assert(lang != "und"@ ==> (speaks(a, lang) <==> speaks(b, lang)));
        }
        language_key_is_a_set(a, "und"@);
        language_key_is_a_set(b, "und"@);
        ordered_keys_are_unique(language_key(a), language_key(b));
    }
    if language_key(a) == language_key(b) {
        assert forall|lang: Seq<char>| lang != "und"@ implies (#[trigger] speaks(a, lang)
            <==> speaks(b, lang)) by {
            language_key_is_a_set(a, lang);
            language_key_is_a_set(b, lang);
        }
    }
}

/// The known languages of some audio streams, in order and each once.
pub fn audio_language_key(streams: &Vec<AudioStreamInfo>) -> (r: Vec<String>)
    ensures
        r.deep_view() == language_key(streams.deep_view()),
{
    let ghost models = streams.deep_view();
    let mut key: Vec<String> = list::empty();
    let mut i: usize = 0;
    assert(models.take(0) =~= Seq::empty());
    while i < streams.len()
        invariant
            i <= streams.len(),
            models == streams.deep_view(),
            key.deep_view() == language_key(models.take(i as int)),
        decreases streams.len() - i,
    {
        let lang = &streams[i].language;
        assert(models[i as int].language == lang@);
        assert(models.take(i + 1).drop_last() =~= models.take(i as int));
        assert(models.take(i + 1).last() == models[i as int]);
        if !text::same_text(lang.as_str(), "und") {
            let ghost before = key.deep_view();
            let mut p: usize = 0;
            while p < key.len() && text::less(key[p].as_str(), lang.as_str())
                invariant
                    p <= key.len(),
                    before == key.deep_view(),
                    forall|k: int| 0 <= k < p ==> text::text_less(#[trigger] before[k], lang@),
                decreases key.len() - p,
            {
                assert(before[p as int] == key[p as int]@);
                p = p + 1;
            }
            proof {
                if p < key.len() {
                    assert(before[p as int] == key[p as int]@);
                }
                lemma_language_place(before, lang@, p as int);
            }
            if p == key.len() || !text::same_text(key[p].as_str(), lang.as_str()) {
                key.insert(p, lang.clone());
                assert(key.deep_view() =~= before.insert(p as int, lang@));
            }
        }
        i = i + 1;
    }
    assert(models.take(i as int) =~= models);
    key
}

/// Long enough to be an episode: more than a quarter of an hour.
pub open spec fn is_candidate(t: AnalysedTitleModel) -> bool {
    t.duration_secs > 900
}

/// Within 15 % of each other.
pub open spec fn similar_length(a: u64, b: u64) -> bool {
    b * 85 <= a * 100 <= b * 115
}

/// Could two titles be episodes of the same show?
pub open spec fn alike(a: AnalysedTitleModel, b: AnalysedTitleModel) -> bool {
    a.index != b.index && similar_length(a.duration_secs, b.duration_secs) && language_key(
        a.audio_streams,
    ) == language_key(b.audio_streams)
}

/// The candidates among the first `n` titles, in order.
pub open spec fn candidates(titles: Seq<AnalysedTitleModel>, n: int) -> Seq<AnalysedTitleModel>
    decreases n,
{
    if n <= 0 {
        Seq::empty()
    } else if is_candidate(titles[n - 1]) {
        candidates(titles, n - 1).push(titles[n - 1])
    } else {
        candidates(titles, n - 1)
    }
}

/// The indices of those of the first `n` candidates that are like `a`, behind
/// the index of `a` itself.
pub open spec fn group_of(a: AnalysedTitleModel, cands: Seq<AnalysedTitleModel>, n: int) -> Seq<u32>
    decreases n,
{
    if n <= 0 {
        seq![a.index]
    } else if alike(a, cands[n - 1]) {
        group_of(a, cands, n - 1).push(cands[n - 1].index)
    } else {
        group_of(a, cands, n - 1)
    }
}

/// The largest group round one of the first `n` candidates, the first of several
/// that are equally large.
pub open spec fn best_group(cands: Seq<AnalysedTitleModel>, n: int) -> Seq<u32>
    decreases n,
{
    if n <= 0 {
        Seq::empty()
    } else {
        let best = best_group(cands, n - 1);
        let group = group_of(cands[n - 1], cands, cands.len() as int);
        if group.len() > best.len() {
            group
        } else {
            best
        }
    }
}

/// The length of the first title with an index.
pub open spec fn duration_of(titles: Seq<AnalysedTitleModel>, index: u32) -> Option<u64>
    decreases titles.len(),
{
    if titles.len() == 0 {
        None
    } else if titles[0].index == index {
        Some(titles[0].duration_secs)
    } else {
        duration_of(titles.skip(1), index)
    }
}

/// What is left of the first `n` of a group, and the lengths met so far, when a
/// title goes out whose length was met before.
pub open spec fn without_repeats(
    titles: Seq<AnalysedTitleModel>,
    group: Seq<u32>,
    n: int,
) -> (Seq<u32>, Seq<u64>)
    decreases n,
{
    if n <= 0 {
        (Seq::empty(), Seq::empty())
    } else {
        let (kept, seen) = without_repeats(titles, group, n - 1);
        match duration_of(titles, group[n - 1]) {
            Some(d) => if seen.contains(d) {
                (kept, seen)
            } else {
                (kept.push(group[n - 1]), seen.push(d))
            },
            None => (kept.push(group[n - 1]), seen),
        }
    }
}

/// The group without the repeats that large groups have on Blu-ray discs.
pub open spec fn thinned(titles: Seq<AnalysedTitleModel>, group: Seq<u32>) -> Seq<u32> {
    if group.len() > 3 {
        without_repeats(titles, group, group.len() as int).0
    } else {
        group
    }
}

/// The place of a number in a list in order: behind all that are not larger.
pub open spec fn number_place(numbers: Seq<u32>, n: u32) -> int
    decreases numbers.len(),
{
    if numbers.len() == 0 || n < numbers[0] {
        0
    } else {
        1 + number_place(numbers.skip(1), n)
    }
}

/// The numbers in order.
pub open spec fn in_order(numbers: Seq<u32>) -> Seq<u32>
    decreases numbers.len(),
{
    if numbers.len() == 0 {
        numbers
    } else {
        let before = in_order(numbers.drop_last());
        before.insert(number_place(before, numbers.last()), numbers.last())
    }
}

/// What the titles of a disc look like: a show where several of the long ones
/// are alike, else a movie.
pub open spec fn disc_type_of(
    titles: Seq<AnalysedTitleModel>,
    main_title: u32,
) -> DiscTypeModel {
    let cands = candidates(titles, titles.len() as int);
    let best = best_group(cands, cands.len() as int);
    let episodes = thinned(titles, best);
    if cands.len() < 2 || best.len() < 2 || episodes.len() < 2 {
        DiscTypeModel::Movie { title_idx: main_title }
    } else {
        DiscTypeModel::Show { episode_indices: in_order(episodes) }
    }
}

proof fn lemma_number_place(numbers: Seq<u32>, x: u32, n: int)
    requires
        0 <= n <= numbers.len(),
        forall|i: int| 0 <= i < n ==> #[trigger] numbers[i] <= x,
        n < numbers.len() ==> x < numbers[n],
    ensures
        number_place(numbers, x) == n,
    decreases numbers.len(),
{
    if n > 0 {
        let rest = numbers.skip(1);
        assert forall|i: int| 0 <= i < n - 1 implies #[trigger] rest[i] <= x by {
            assert(rest[i] == numbers[i + 1]);
        }
        lemma_number_place(rest, x, n - 1);
    }
}

proof fn lemma_number_place_in_range(numbers: Seq<u32>, x: u32)
    ensures
        0 <= number_place(numbers, x) <= numbers.len(),
        forall|i: int| 0 <= i < number_place(numbers, x) ==> #[trigger] numbers[i] <= x,
        number_place(numbers, x) < numbers.len() ==> x < numbers[number_place(numbers, x)],
    decreases numbers.len(),
{
    if numbers.len() > 0 && numbers[0] <= x {
        let rest = numbers.skip(1);
        lemma_number_place_in_range(rest, x);
        assert forall|i: int| 0 <= i < number_place(numbers, x) implies #[trigger] numbers[i]
            <= x by {
            if i > 0 {
                assert(rest[i - 1] == numbers[i]);
            }
        }
        if number_place(numbers, x) < numbers.len() {
            assert(rest[number_place(rest, x)] == numbers[number_place(numbers, x)]);
        }
    }
}

/// Numbers in order are the same numbers, none larger than a later one.
pub proof fn ordering_sorts(numbers: Seq<u32>)
    ensures
        in_order(numbers).to_multiset() == numbers.to_multiset(),
        in_order(numbers).len() == numbers.len(),
        forall|i: int, j: int|
            0 <= i < j < in_order(numbers).len() ==> #[trigger] in_order(numbers)[i]
                <= #[trigger] in_order(numbers)[j],
    decreases numbers.len(),
{
    if numbers.len() > 0 {
        let rest = numbers.drop_last();
        let x = numbers.last();
        let before = in_order(rest);
        ordering_sorts(rest);
        lemma_number_place_in_range(before, x);
        let n = number_place(before, x);
        assert(numbers =~= rest.push(x));
        vstd::seq_lib::to_multiset_insert(before, n, x);
        vstd::seq_lib::to_multiset_build(rest, x);
        let after = in_order(numbers);
        assert(after == before.insert(n, x));
        assert forall|i: int, j: int| 0 <= i < j < after.len() implies #[trigger] after[i]
            <= #[trigger] after[j] by {
            let p = if i < n {
                i
            } else {
                i - 1
            };
            let q = if j < n {
                j
            } else {
                j - 1
            };
            if i != n {
                assert(after[i] == before[p]);
            }
            if j != n {
                assert(after[j] == before[q]);
            }
            if i == n && q > n {
                assert(before[n] <= before[q]);
            }
        }
    }
}

fn sort_numbers(numbers: &Vec<u32>) -> (r: Vec<u32>)
    ensures
        r@ == in_order(numbers@),
{
    let mut sorted: Vec<u32> = Vec::new();
    let mut i: usize = 0;
    assert(numbers@.take(0) =~= Seq::empty());
    while i < numbers.len()
        invariant
            i <= numbers.len(),
            sorted@ == in_order(numbers@.take(i as int)),
            sorted.len() == i,
        decreases numbers.len() - i,
    {
        let x: u32 = numbers[i];
        let mut p: usize = 0;
        while p < sorted.len() && sorted[p] <= x
            invariant
                p <= sorted.len(),
                forall|k: int| 0 <= k < p ==> #[trigger] sorted@[k] <= x,
            decreases sorted.len() - p,
        {
            p = p + 1;
        }
        proof {
            lemma_number_place(sorted@, x, p as int);
            assert(numbers@.take(i + 1).drop_last() =~= numbers@.take(i as int));
        }
        sorted.insert(p, x);
        i = i + 1;
    }
    assert(numbers@.take(i as int) =~= numbers@);
    sorted
}

fn find_duration(titles: &Vec<AnalysedTitle>, index: u32) -> (r: Option<u64>)
    ensures
        r == duration_of(titles.deep_view(), index),
{
    let ghost models = titles.deep_view();
    let mut i: usize = 0;
    assert(models.skip(0) =~= models);
    while i < titles.len()
        invariant
            i <= titles.len(),
            models == titles.deep_view(),
            duration_of(models, index) == duration_of(models.skip(i as int), index),
        decreases titles.len() - i,
    {
        assert(models.skip(i as int)[0] == titles[i as int].deep_view());
        if titles[i].index == index {
            return Some(titles[i].duration_secs);
        }
        assert(models.skip(i as int).skip(1) =~= models.skip(i + 1));
        i = i + 1;
    }
    None
}

fn drop_repeats(titles: &Vec<AnalysedTitle>, group: &Vec<u32>) -> (r: Vec<u32>)
    ensures
        r@ == without_repeats(titles.deep_view(), group@, group.len() as int).0,
{
    let ghost models = titles.deep_view();
    let mut kept: Vec<u32> = Vec::new();
    let mut seen: Vec<u64> = Vec::new();
    let mut i: usize = 0;
    while i < group.len()
        invariant
            i <= group.len(),
            models == titles.deep_view(),
            (kept@, seen@) == without_repeats(models, group@, i as int),
        decreases group.len() - i,
    {
        let index: u32 = group[i];
        match find_duration(titles, index) {
            Some(d) => {
                let mut k: usize = 0;
                while k < seen.len() && seen[k] != d
                    invariant
                        k <= seen.len(),
                        forall|j: int| 0 <= j < k ==> seen@[j] != d,
                    decreases seen.len() - k,
                {
                    k = k + 1;
                }
                if k == seen.len() {
                    assert(!seen@.contains(d));
                    kept.push(index);
                    seen.push(d);
                } else {
                    assert(seen@.contains(d));
                }
            },
            None => {
                kept.push(index);
            },
        }
        i = i + 1;
    }
    kept
}

/// The places of the candidates among the titles.
pub open spec fn candidate_places(titles: Seq<AnalysedTitleModel>, n: int) -> Seq<usize>
    decreases n,
{
    if n <= 0 {
        Seq::empty()
    } else if is_candidate(titles[n - 1]) {
        candidate_places(titles, n - 1).push((n - 1) as usize)
    } else {
        candidate_places(titles, n - 1)
    }
}

proof fn lemma_candidate_places(titles: Seq<AnalysedTitleModel>, n: int)
    requires
        0 <= n <= titles.len() <= usize::MAX,
    ensures
        candidate_places(titles, n).len() == candidates(titles, n).len(),
        forall|k: int|
            0 <= k < candidates(titles, n).len() ==> {
                &&& 0 <= #[trigger] candidate_places(titles, n)[k] < n
                &&& titles[candidate_places(titles, n)[k] as int] == candidates(titles, n)[k]
            },
    decreases n,
{
    if n > 0 {
        lemma_candidate_places(titles, n - 1);
    }
}

fn find_candidates(titles: &Vec<AnalysedTitle>) -> (r: Vec<usize>)
    ensures
        r@ == candidate_places(titles.deep_view(), titles.len() as int),
{
    let ghost models = titles.deep_view();
    let mut places: Vec<usize> = Vec::new();
    let mut i: usize = 0;
    while i < titles.len()
        invariant
            i <= titles.len(),
            models == titles.deep_view(),
            places@ == candidate_places(models, i as int),
        decreases titles.len() - i,
    {
        assert(models[i as int] == titles[i as int].deep_view());
        if titles[i].duration_secs > 15 * 60 {
            places.push(i);
        }
        i = i + 1;
    }
    places
}

fn are_alike(a: &AnalysedTitle, b: &AnalysedTitle) -> (r: bool)
    ensures
        r == alike(a.deep_view(), b.deep_view()),
{
    if a.index == b.index {
        return false;
    }
    let a_dur: u128 = a.duration_secs as u128 * 100;
    let b_dur: u128 = b.duration_secs as u128;
    // Within 15% duration
    if a_dur > b_dur * 115 || a_dur < b_dur * 85 {
        return false;
    }
    // Same audio language set
    let a_langs = audio_language_key(&a.audio_streams);
    let b_langs = audio_language_key(&b.audio_streams);
    text::same_texts(&a_langs, &b_langs)
}

fn collect_group(titles: &Vec<AnalysedTitle>, places: &Vec<usize>, at: usize) -> (r: Vec<u32>)
    requires
        places@ == candidate_places(titles.deep_view(), titles.len() as int),
        at < places.len(),
    ensures
        ({
            let cands = candidates(titles.deep_view(), titles.len() as int);
            r@ == group_of(cands[at as int], cands, cands.len() as int)
        }),
{
    let ghost models = titles.deep_view();
    let ghost cands = candidates(models, models.len() as int);
    proof {
        lemma_candidate_places(models, models.len() as int);
    }
    let a = &titles[places[at]];
    assert(a.deep_view() == models[places[at as int] as int]);
    let mut group: Vec<u32> = Vec::new();
    group.push(a.index);
    assert(group@ =~= group_of(cands[at as int], cands, 0));
    let mut i: usize = 0;
    while i < places.len()
        invariant
            i <= places.len(),
            models == titles.deep_view(),
            cands == candidates(models, models.len() as int),
            places.len() == cands.len(),
            forall|k: int|
                0 <= k < cands.len() ==> {
                    &&& 0 <= #[trigger] places@[k] < models.len()
                    &&& models[places@[k] as int] == cands[k]
                },
            at < places.len(),
            a.deep_view() == cands[at as int],
            group@ == group_of(cands[at as int], cands, i as int),
        decreases places.len() - i,
    {
        let b = &titles[places[i]];
        assert(b.deep_view() == models[places[i as int] as int]);
        if are_alike(a, b) {
            group.push(b.index);
        }
        i = i + 1;
    }
    group
}

/// What the titles of a disc look like: the largest group of long titles with
/// similar length and the same audio languages, if any, is a show.
pub fn detect_disc_type(titles: &Vec<AnalysedTitle>, main_title: u32) -> (r: DiscType)
    ensures
        r.deep_view() == disc_type_of(titles.deep_view(), main_title),
{
    let ghost models = titles.deep_view();
    let ghost cands = candidates(models, models.len() as int);
    let places = find_candidates(titles);
    proof {
        lemma_candidate_places(models, models.len() as int);
    }
    if places.len() < 2 {
        return DiscType::Movie { title_idx: main_title };
    }
    let mut best: Vec<u32> = Vec::new();
    let mut i: usize = 0;
    while i < places.len()
        invariant
            i <= places.len(),
            models == titles.deep_view(),
            cands == candidates(models, models.len() as int),
            places@ == candidate_places(models, titles.len() as int),
            places.len() == cands.len(),
            best@ == best_group(cands, i as int),
        decreases places.len() - i,
    {
        let group = collect_group(titles, &places, i);
        if group.len() > best.len() {
            best = group;
        }
        i = i + 1;
    }
    if best.len() < 2 {
        return DiscType::Movie { title_idx: main_title };
    }
    // Large groups hold Blu-ray duplicates: titles of the same duration
    if best.len() > 3 {
        best = drop_repeats(titles, &best);
    }
    if best.len() < 2 {
        DiscType::Movie { title_idx: main_title }
    } else {
        DiscType::Show { episode_indices: sort_numbers(&best) }
    }
}

/// Sets the scores, sorts the titles by them, and tells what they look like.
pub fn score_and_detect(titles: &mut Vec<AnalysedTitle>, main_title: u32) -> (r: DiscType)
    ensures
        final(titles).deep_view() == ranked(scored_titles(old(titles).deep_view(), main_title)),
        r.deep_view() == disc_type_of(final(titles).deep_view(), main_title),
{
    rank(titles, main_title);
    detect_disc_type(titles, main_title)
}

/// The titles of a disc before they are scored.
pub open spec fn described_titles(titles: Seq<BdTitle>) -> Seq<AnalysedTitleModel> {
    titles.map_values(|t: BdTitle| described(t))
}

/// What is on a Blu-ray disc.
pub open spec fn bluray_analysis(titles: Seq<BdTitle>, main_title: u32) -> TitleAnalysisModel {
    let sorted = ranked(scored_titles(described_titles(titles), main_title));
    TitleAnalysisModel {
        titles: sorted,
        main_title_idx: main_title,
        detected_type: disc_type_of(sorted, main_title),
        format: DiscFormat::BluRay,
    }
}

/// What is on a Blu-ray disc, from the titles that could be read.
pub fn analyse_disc(titles: &Vec<BdTitle>, main_title: u32) -> (r: TitleAnalysis)
    ensures
        r.deep_view() == bluray_analysis(titles@, main_title),
{
    let mut analysed: Vec<AnalysedTitle> = list::empty();
    let ghost all = described_titles(titles@);
    let mut i: usize = 0;
    while i < titles.len()
        invariant
            i <= titles.len(),
            all == described_titles(titles@),
            analysed.deep_view() == all.take(i as int),
        decreases titles.len() - i,
    {
        list::push(&mut analysed, describe(&titles[i]));
        assert(analysed.deep_view() =~= all.take(i + 1));
        i = i + 1;
    }
    assert(all.take(i as int) =~= all);
    let detected_type = score_and_detect(&mut analysed, main_title);
    TitleAnalysis {
        titles: analysed,
        main_title_idx: main_title,
        detected_type,
        format: DiscFormat::BluRay,
    }
}

/// What is said where the disc cannot be opened.
pub open spec fn no_bluray_text(path: Seq<char>) -> Seq<char> {
    "Failed to open Blu-ray device at '"@ + path + "' (no disc?)"@
}

/// What is said where the disc cannot be opened.
pub fn no_bluray_message(path: &str) -> (r: String)
    ensures
        r@ == no_bluray_text(path@),
{
    let mut message = "Failed to open Blu-ray device at '".to_owned();
    message.append(path);
    message.append("' (no disc?)");
    message
}

/// Is an index that of a title long enough to be an episode?
pub open spec fn names_candidate(titles: Seq<AnalysedTitleModel>, index: u32) -> bool {
    exists|k: int|
        0 <= k < titles.len() && is_candidate(#[trigger] titles[k]) && titles[k].index == index
}

proof fn lemma_candidates_come_from_titles(titles: Seq<AnalysedTitleModel>, n: int)
    requires
        0 <= n <= titles.len(),
    ensures
        forall|c: int|
            0 <= c < candidates(titles, n).len() ==> names_candidate(
                titles,
                (#[trigger] candidates(titles, n)[c]).index,
            ),
    decreases n,
{
    if n > 0 {
        lemma_candidates_come_from_titles(titles, n - 1);
        let before = candidates(titles, n - 1);
        let after = candidates(titles, n);
        assert forall|c: int| 0 <= c < after.len() implies names_candidate(
            titles,
            (#[trigger] after[c]).index,
        ) by {
            if c < before.len() {
                assert(after[c] == before[c]);
            } else {
                assert(after[c] == titles[n - 1]);
            }
        }
    }
}

proof fn lemma_group_members(
    a: AnalysedTitleModel,
    cands: Seq<AnalysedTitleModel>,
    n: int,
    titles: Seq<AnalysedTitleModel>,
)
    requires
        0 <= n <= cands.len(),
        names_candidate(titles, a.index),
        forall|c: int|
            0 <= c < cands.len() ==> names_candidate(titles, (#[trigger] cands[c]).index),
    ensures
        forall|i: int|
            0 <= i < group_of(a, cands, n).len() ==> names_candidate(
                titles,
                #[trigger] group_of(a, cands, n)[i],
            ),
    decreases n,
{
    let after = group_of(a, cands, n);
    if n > 0 {
        lemma_group_members(a, cands, n - 1, titles);
        let before = group_of(a, cands, n - 1);
        assert forall|i: int| 0 <= i < after.len() implies names_candidate(
            titles,
            #[trigger] after[i],
        ) by {
            if i < before.len() {
                assert(after[i] == before[i]);
            } else {
                assert(after[i] == cands[n - 1].index);
            }
        }
    }
}

proof fn lemma_best_group_members(titles: Seq<AnalysedTitleModel>, n: int)
    requires
        0 <= n <= candidates(titles, titles.len() as int).len(),
    ensures
        ({
            let best = best_group(candidates(titles, titles.len() as int), n);
            forall|i: int| 0 <= i < best.len() ==> names_candidate(titles, #[trigger] best[i])
        }),
    decreases n,
{
    if n > 0 {
        let cands = candidates(titles, titles.len() as int);
        lemma_best_group_members(titles, n - 1);
        lemma_candidates_come_from_titles(titles, titles.len() as int);
        assert(names_candidate(titles, cands[n - 1].index));
        lemma_group_members(cands[n - 1], cands, cands.len() as int, titles);
        let group = group_of(cands[n - 1], cands, cands.len() as int);
        let before = best_group(cands, n - 1);
        let best = best_group(cands, n);
        assert forall|i: int| 0 <= i < best.len() implies names_candidate(
            titles,
            #[trigger] best[i],
        ) by {
            if group.len() > before.len() {
                assert(best[i] == group[i]);
            } else {
                assert(best[i] == before[i]);
            }
        }
    }
}

proof fn lemma_kept_come_from_group(titles: Seq<AnalysedTitleModel>, group: Seq<u32>, n: int)
    requires
        0 <= n <= group.len(),
    ensures
        forall|i: int|
            0 <= i < without_repeats(titles, group, n).0.len() ==> group.contains(
                #[trigger] without_repeats(titles, group, n).0[i],
            ),
    decreases n,
{
    if n > 0 {
        lemma_kept_come_from_group(titles, group, n - 1);
        let before = without_repeats(titles, group, n - 1).0;
        let after = without_repeats(titles, group, n).0;
        assert forall|i: int| 0 <= i < after.len() implies group.contains(#[trigger] after[i]) by {
            if i < before.len() {
                assert(after[i] == before[i]);
            } else {
                assert(after[i] == group[n - 1]);
            }
        }
    }
}

/// A disc taken for a show has at least two episodes, in ascending order, each
/// of them a title of more than a quarter of an hour; any other disc is taken
/// for a movie, whose title is the main title.
pub proof fn shows_have_long_episodes(titles: Seq<AnalysedTitleModel>, main_title: u32)
    ensures
        match disc_type_of(titles, main_title) {
            DiscTypeModel::Movie { title_idx } => title_idx == main_title,
            DiscTypeModel::Show { episode_indices } => {
                &&& episode_indices.len() >= 2
                &&& forall|i: int, j: int|
                    0 <= i < j < episode_indices.len() ==> #[trigger] episode_indices[i]
                        <= #[trigger] episode_indices[j]
                &&& forall|i: int|
                    0 <= i < episode_indices.len() ==> names_candidate(
                        titles,
                        #[trigger] episode_indices[i],
                    )
            },
        },
{
    if disc_type_of(titles, main_title) is Show {
        let cands = candidates(titles, titles.len() as int);
        let best = best_group(cands, cands.len() as int);
        let episodes = thinned(titles, best);
        let sorted = in_order(episodes);
        ordering_sorts(episodes);
        lemma_best_group_members(titles, cands.len() as int);
        lemma_kept_come_from_group(titles, best, best.len() as int);
        assert forall|i: int| 0 <= i < sorted.len() implies names_candidate(
            titles,
            #[trigger] sorted[i],
        ) by {
            vstd::seq_lib::to_multiset_contains(sorted, sorted[i]);
            vstd::seq_lib::to_multiset_contains(episodes, sorted[i]);
            assert(sorted.contains(sorted[i]));
            assert(episodes.contains(sorted[i]));
            let e = choose|e: int| 0 <= e < episodes.len() && episodes[e] == sorted[i];
            assert(best.contains(episodes[e]));
            let b = choose|b: int| 0 <= b < best.len() && best[b] == episodes[e];
            assert(best[b] == sorted[i]);
        }
    }
}

/// No candidate has a larger group than the one that is taken, and the one that is
/// taken is that of a candidate.
pub proof fn the_largest_group_is_taken(cands: Seq<AnalysedTitleModel>, n: int, k: int)
    requires
        0 <= k < n <= cands.len(),
    ensures
        group_of(cands[k], cands, cands.len() as int).len() <= best_group(cands, n).len(),
        exists|a: int|
            0 <= a < n && best_group(cands, n) == group_of(
                #[trigger] cands[a],
                cands,
                cands.len() as int,
            ),
    decreases n,
{
    let group = group_of(cands[n - 1], cands, cands.len() as int);
    lemma_groups_are_not_empty(cands[n - 1], cands, cands.len() as int);
    if n > 1 {
        the_largest_group_is_taken(cands, n - 1, if k < n - 1 {
            k
        } else {
            0
        });
    }
    if group.len() > best_group(cands, n - 1).len() {
        assert(best_group(cands, n) == group_of(cands[n - 1], cands, cands.len() as int));
    } else {
        let a = choose|a: int|
            0 <= a < n - 1 && best_group(cands, n - 1) == group_of(
                #[trigger] cands[a],
                cands,
                cands.len() as int,
            );
        assert(best_group(cands, n) == group_of(cands[a], cands, cands.len() as int));
    }
}

proof fn lemma_groups_are_not_empty(
    a: AnalysedTitleModel,
    cands: Seq<AnalysedTitleModel>,
    n: int,
)
    ensures
        group_of(a, cands, n).len() > 0,
    decreases n,
{
    if n > 0 {
        lemma_groups_are_not_empty(a, cands, n - 1);
    }
}

/// Is an index that of `a` itself, or of a candidate that is like it?
pub open spec fn belongs_to(
    a: AnalysedTitleModel,
    cands: Seq<AnalysedTitleModel>,
    index: u32,
) -> bool {
    index == a.index || exists|b: int|
        0 <= b < cands.len() && alike(a, #[trigger] cands[b]) && cands[b].index == index
}

proof fn lemma_group_belongs(a: AnalysedTitleModel, cands: Seq<AnalysedTitleModel>, n: int)
    requires
        0 <= n <= cands.len(),
    ensures
        forall|i: int|
            0 <= i < group_of(a, cands, n).len() ==> belongs_to(
                a,
                cands,
                #[trigger] group_of(a, cands, n)[i],
            ),
    decreases n,
{
    if n > 0 {
        lemma_group_belongs(a, cands, n - 1);
        let before = group_of(a, cands, n - 1);
        let after = group_of(a, cands, n);
        assert forall|i: int| 0 <= i < after.len() implies belongs_to(
            a,
            cands,
            #[trigger] after[i],
        ) by {
            if i < before.len() {
                assert(after[i] == before[i]);
            } else {
                assert(after[i] == cands[n - 1].index);
                assert(alike(a, cands[n - 1]));
            }
        }
    }
}

/// An index among those in order is one of those that were put in order.
proof fn lemma_in_order_contains(numbers: Seq<u32>, i: int)
    requires
        0 <= i < in_order(numbers).len(),
    ensures
        numbers.contains(in_order(numbers)[i]),
{
    let sorted = in_order(numbers);
    ordering_sorts(numbers);
    vstd::seq_lib::to_multiset_contains(sorted, sorted[i]);
    vstd::seq_lib::to_multiset_contains(numbers, sorted[i]);
    assert(sorted.contains(sorted[i]));
}

/// The episodes of a show belong together: one candidate is like all the others,
/// in length and in languages.
pub proof fn episodes_belong_together(titles: Seq<AnalysedTitleModel>, main_title: u32)
    requires
        disc_type_of(titles, main_title) is Show,
    ensures
        ({
            let cands = candidates(titles, titles.len() as int);
            let episodes = disc_type_of(titles, main_title)->episode_indices;
            exists|a: int|
                0 <= a < cands.len() && forall|i: int|
                    0 <= i < episodes.len() ==> belongs_to(
                        #[trigger] cands[a],
                        cands,
                        #[trigger] episodes[i],
                    )
        }),
{
    let cands = candidates(titles, titles.len() as int);
    let best = best_group(cands, cands.len() as int);
    let kept = thinned(titles, best);
    let episodes = in_order(kept);
    the_largest_group_is_taken(cands, cands.len() as int, 0);
    let a = choose|a: int|
        0 <= a < cands.len() && best == group_of(#[trigger] cands[a], cands, cands.len() as int);
    lemma_group_belongs(cands[a], cands, cands.len() as int);
    lemma_kept_come_from_group(titles, best, best.len() as int);
    assert forall|i: int| 0 <= i < episodes.len() implies belongs_to(
        cands[a],
        cands,
        #[trigger] episodes[i],
    ) by {
        lemma_in_order_contains(kept, i);
        let e = choose|e: int| 0 <= e < kept.len() && kept[e] == episodes[i];
        assert(best.contains(kept[e]));
        let b = choose|b: int| 0 <= b < best.len() && best[b] == kept[e];
        assert(belongs_to(cands[a], cands, best[b]));
    }
}

/// No two titles have the same index.
pub open spec fn distinct_indices(titles: Seq<AnalysedTitleModel>) -> bool {
    forall|i: int, j: int|
        0 <= i < j < titles.len() ==> (#[trigger] titles[i]).index != (#[trigger] titles[j]).index
}

proof fn lemma_candidates_distinct(titles: Seq<AnalysedTitleModel>, n: int)
    requires
        distinct_indices(titles),
        0 <= n <= titles.len(),
    ensures
        distinct_indices(candidates(titles, n)),
        forall|c: int|
            0 <= c < candidates(titles, n).len() ==> stands_before(
                titles,
                n,
                #[trigger] candidates(titles, n)[c],
            ),
    decreases n,
{
    if n > 0 {
        lemma_candidates_distinct(titles, n - 1);
        let before = candidates(titles, n - 1);
        let after = candidates(titles, n);
        assert forall|c: int| 0 <= c < after.len() implies stands_before(
            titles,
            n,
            #[trigger] after[c],
        ) by {
            if c < before.len() {
                assert(after[c] == before[c]);
                let k = choose|k: int| 0 <= k < n - 1 && #[trigger] titles[k] == before[c];
                assert(titles[k] == after[c]);
            } else {
                assert(titles[n - 1] == after[c]);
            }
        }
        assert forall|i: int, j: int| 0 <= i < j < after.len() implies (
        #[trigger] after[i]).index != (#[trigger] after[j]).index by {
            assert(after[i] == before[i]);
            if j < before.len() {
                assert(after[j] == before[j]);
            } else {
                let k = choose|k: int| 0 <= k < n - 1 && #[trigger] titles[k] == before[i];
                assert(titles[k].index != titles[n - 1].index);
            }
        }
    }
}

/// Does a title stand among the first `n`?
spec fn stands_before(titles: Seq<AnalysedTitleModel>, n: int, t: AnalysedTitleModel) -> bool {
    exists|k: int| 0 <= k < n && #[trigger] titles[k] == t
}

/// Is an index that of `a` or of one of the first `n` candidates?
spec fn named_before(
    a: AnalysedTitleModel,
    cands: Seq<AnalysedTitleModel>,
    n: int,
    index: u32,
) -> bool {
    index == a.index || exists|k: int| 0 <= k < n && (#[trigger] cands[k]).index == index
}

proof fn lemma_group_distinct(a: AnalysedTitleModel, cands: Seq<AnalysedTitleModel>, n: int)
    requires
        distinct_indices(cands),
        0 <= n <= cands.len(),
    ensures
        group_of(a, cands, n).no_duplicates(),
        forall|i: int|
            0 <= i < group_of(a, cands, n).len() ==> named_before(
                a,
                cands,
                n,
                #[trigger] group_of(a, cands, n)[i],
            ),
    decreases n,
{
    if n > 0 {
        lemma_group_distinct(a, cands, n - 1);
        let before = group_of(a, cands, n - 1);
        let after = group_of(a, cands, n);
        assert forall|i: int| 0 <= i < after.len() implies named_before(
            a,
            cands,
            n,
            #[trigger] after[i],
        ) by {
            if i < before.len() {
                assert(after[i] == before[i]);
                assert(named_before(a, cands, n - 1, before[i]));
            } else {
                assert(after[i] == cands[n - 1].index);
            }
        }
        if alike(a, cands[n - 1]) {
            assert forall|i: int| 0 <= i < before.len() implies before[i]
                != cands[n - 1].index by {
                assert(named_before(a, cands, n - 1, before[i]));
                if before[i] != a.index {
                    let k = choose|k: int|
                        0 <= k < n - 1 && (#[trigger] cands[k]).index == before[i];
                    assert(cands[k].index != cands[n - 1].index);
                }
            }
        }
    }
}

proof fn lemma_kept_distinct(titles: Seq<AnalysedTitleModel>, group: Seq<u32>, n: int)
    requires
        group.no_duplicates(),
        0 <= n <= group.len(),
    ensures
        without_repeats(titles, group, n).0.no_duplicates(),
        forall|i: int|
            0 <= i < without_repeats(titles, group, n).0.len() ==> group.take(n).contains(
                #[trigger] without_repeats(titles, group, n).0[i],
            ),
    decreases n,
{
    if n > 0 {
        lemma_kept_distinct(titles, group, n - 1);
        let before = without_repeats(titles, group, n - 1).0;
        let after = without_repeats(titles, group, n).0;
        assert forall|i: int| 0 <= i < before.len() implies {
            &&& before[i] != group[n - 1]
            &&& group.take(n).contains(#[trigger] before[i])
        } by {
            let shorter = group.take(n - 1);
            assert(shorter.contains(before[i]));
            let k = choose|k: int| 0 <= k < shorter.len() && shorter[k] == before[i];
            assert(group[k] == before[i]);
            assert(group.take(n)[k] == before[i]);
        }
        assert(group.take(n)[n - 1] == group[n - 1]);
        assert forall|i: int| 0 <= i < after.len() implies group.take(n).contains(
            #[trigger] after[i],
        ) by {
            if i < before.len() {
                assert(after[i] == before[i]);
            } else {
                assert(after[i] == group[n - 1]);
            }
        }
    }
}

/// Where no two titles have the same index, no episode of a show is named twice:
/// each has a larger index than the one before.
pub proof fn episodes_are_named_once(titles: Seq<AnalysedTitleModel>, main_title: u32)
    requires
        distinct_indices(titles),
    ensures
        disc_type_of(titles, main_title) matches DiscTypeModel::Show { episode_indices }
            ==> forall|i: int, j: int|
            0 <= i < j < episode_indices.len() ==> #[trigger] episode_indices[i]
                < #[trigger] episode_indices[j],
{
    if disc_type_of(titles, main_title) is Show {
        let cands = candidates(titles, titles.len() as int);
        let best = best_group(cands, cands.len() as int);
        let kept = thinned(titles, best);
        let episodes = in_order(kept);
        lemma_candidates_distinct(titles, titles.len() as int);
        the_largest_group_is_taken(cands, cands.len() as int, 0);
        let a = choose|a: int|
            0 <= a < cands.len() && best == group_of(
                #[trigger] cands[a],
                cands,
                cands.len() as int,
            );
        lemma_group_distinct(cands[a], cands, cands.len() as int);
        lemma_kept_distinct(titles, best, best.len() as int);
        ordering_sorts(kept);
        kept.lemma_multiset_has_no_duplicates();
        episodes.lemma_multiset_has_no_duplicates_conv();
        assert forall|i: int, j: int| 0 <= i < j < episodes.len() implies #[trigger] episodes[i]
            < #[trigger] episodes[j] by {
            assert(episodes[i] <= episodes[j]);
            assert(episodes[i] != episodes[j]);
        }
    }
}

// --- what makes a show ---

/// Do two titles have the same known languages?
pub open spec fn same_languages(a: AnalysedTitleModel, b: AnalysedTitleModel) -> bool {
    forall|lang: Seq<char>|
        lang != "und"@ ==> (#[trigger] speaks(a.audio_streams, lang) <==> speaks(
            b.audio_streams,
            lang,
        ))
}

proof fn lemma_group_contains(
    a: AnalysedTitleModel,
    cands: Seq<AnalysedTitleModel>,
    n: int,
    b: int,
)
    requires
        0 <= b < n <= cands.len(),
        alike(a, cands[b]),
    ensures
        group_of(a, cands, n).contains(cands[b].index),
    decreases n,
{
    let before = group_of(a, cands, n - 1);
    let after = group_of(a, cands, n);
    if b == n - 1 {
        assert(after[before.len() as int] == cands[b].index);
    } else {
        lemma_group_contains(a, cands, n - 1, b);
        let k = choose|k: int| 0 <= k < before.len() && before[k] == cands[b].index;
        assert(after[k] == cands[b].index);
    }
}

/// A candidate that plays at least 85 % and at most 115 % as long as another, in
/// the same languages, has the other in its group, at every length.
pub proof fn near_titles_share_a_group(cands: Seq<AnalysedTitleModel>, a: int, b: int)
    requires
        0 <= a < cands.len(),
        0 <= b < cands.len(),
        cands[a].index != cands[b].index,
        85 * cands[b].duration_secs <= 100 * cands[a].duration_secs <= 115
            * cands[b].duration_secs,
        same_languages(cands[a], cands[b]),
    ensures
        group_of(cands[a], cands, cands.len() as int).contains(cands[b].index),
{
    keys_compare_language_sets(cands[a].audio_streams, cands[b].audio_streams);
    lemma_group_contains(cands[a], cands, cands.len() as int, b);
}

/// Whoever else is in the group of a candidate is a candidate of such a length and
/// in the same languages.
pub proof fn groups_hold_near_titles_only(cands: Seq<AnalysedTitleModel>, a: int, i: int)
    requires
        0 <= a < cands.len(),
        0 <= i < group_of(cands[a], cands, cands.len() as int).len(),
    ensures
        ({
            let index = group_of(cands[a], cands, cands.len() as int)[i];
            index == cands[a].index || exists|b: int|
                0 <= b < cands.len() && (#[trigger] cands[b]).index == index && 85
                    * cands[b].duration_secs <= 100 * cands[a].duration_secs <= 115
                    * cands[b].duration_secs && same_languages(cands[a], cands[b])
        }),
{
    let group = group_of(cands[a], cands, cands.len() as int);
    lemma_group_belongs(cands[a], cands, cands.len() as int);
    assert(belongs_to(cands[a], cands, group[i]));
    if group[i] != cands[a].index {
        let b = choose|b: int|
            0 <= b < cands.len() && alike(cands[a], #[trigger] cands[b]) && cands[b].index
                == group[i];
        keys_compare_language_sets(cands[a].audio_streams, cands[b].audio_streams);
        assert(same_languages(cands[a], cands[b]));
        assert(cands[b].index == group[i]);
    }
}

/// Likeness in length is a matter of proportion: it stays when both titles are
/// stretched by the same factor.
pub proof fn likeness_is_proportional(a: u64, b: u64, k: int)
    requires
        k > 0,
        a * k <= u64::MAX,
        b * k <= u64::MAX,
    ensures
        similar_length((a * k) as u64, (b * k) as u64) == similar_length(a, b),
{
    assert(0 <= a * k && 0 <= b * k) by (nonlinear_arith)
        requires
            k > 0,
            a >= 0,
            b >= 0,
    ;
    assert(b * 85 <= a * 100 <==> (b * k) * 85 <= (a * k) * 100) by (nonlinear_arith)
        requires
            k > 0,
    ;
    assert(a * 100 <= b * 115 <==> (a * k) * 100 <= (b * k) * 115) by (nonlinear_arith)
        requires
            k > 0,
    ;
}

/// The candidates are the titles of more than 900 seconds: all of them and no
/// others.
pub proof fn candidates_are_the_long_titles(titles: Seq<AnalysedTitleModel>, n: int, k: int, c: int)
    requires
        0 <= k < n <= titles.len(),
    ensures
        titles[k].duration_secs > 900 ==> candidates(titles, n).contains(titles[k]),
        0 <= c < candidates(titles, n).len() ==> candidates(titles, n)[c].duration_secs > 900
            && titles.contains(candidates(titles, n)[c]),
        candidates(titles, n).len() <= n,
    decreases n,
{
    let before = candidates(titles, n - 1);
    let after = candidates(titles, n);
    if n > 1 {
        candidates_are_the_long_titles(
            titles,
            n - 1,
            if k < n - 1 {
                k
            } else {
                0
            },
            c,
        );
    }
    if is_candidate(titles[n - 1]) {
        assert(after[before.len() as int] == titles[n - 1]);
    }
    if k < n - 1 && titles[k].duration_secs > 900 {
        let j = choose|j: int| 0 <= j < before.len() && before[j] == titles[k];
        assert(after[j] == titles[k]);
    }
    if 0 <= c < after.len() {
        if c < before.len() {
            assert(after[c] == before[c]);
        } else {
            assert(after[c] == titles[n - 1]);
        }
    }
}

proof fn lemma_group_size(a: AnalysedTitleModel, cands: Seq<AnalysedTitleModel>, n: int, k: int)
    requires
        0 <= n <= cands.len(),
        0 <= k < cands.len(),
        cands[k] == a,
    ensures
        group_of(a, cands, n).len() <= n + 1,
        n > k ==> group_of(a, cands, n).len() <= n,
    decreases n,
{
    if n > 0 {
        lemma_group_size(a, cands, n - 1, k);
    }
}

/// Two long titles of such lengths in the same languages make a show of a disc with
/// no more than three long titles.
pub proof fn two_near_titles_make_a_show(
    titles: Seq<AnalysedTitleModel>,
    main_title: u32,
    i: int,
    j: int,
)
    requires
        0 <= i < titles.len(),
        0 <= j < titles.len(),
        titles[i].index != titles[j].index,
        titles[i].duration_secs > 900,
        titles[j].duration_secs > 900,
        85 * titles[j].duration_secs <= 100 * titles[i].duration_secs <= 115
            * titles[j].duration_secs,
        same_languages(titles[i], titles[j]),
        candidates(titles, titles.len() as int).len() <= 3,
    ensures
        disc_type_of(titles, main_title) is Show,
{
    let n = titles.len() as int;
    let cands = candidates(titles, n);
    let m = cands.len() as int;
    candidates_are_the_long_titles(titles, n, i, 0);
    candidates_are_the_long_titles(titles, n, j, 0);
    let a = choose|a: int| 0 <= a < cands.len() && cands[a] == titles[i];
    let b = choose|b: int| 0 <= b < cands.len() && cands[b] == titles[j];
    near_titles_share_a_group(cands, a, b);
    let group = group_of(cands[a], cands, m);
    lemma_first_of_group(cands[a], cands, m);
    let k = choose|k: int| 0 <= k < group.len() && group[k] == cands[b].index;
    assert(k != 0);
    the_largest_group_is_taken(cands, m, a);
    let best = best_group(cands, m);
    let t = choose|t: int| 0 <= t < m && best == group_of(#[trigger] cands[t], cands, m);
    lemma_group_size(cands[t], cands, m, t);
    ordering_sorts(best);
}

proof fn lemma_first_of_group(a: AnalysedTitleModel, cands: Seq<AnalysedTitleModel>, n: int)
    ensures
        group_of(a, cands, n).len() > 0,
        group_of(a, cands, n)[0] == a.index,
    decreases n,
{
    if n > 0 {
        lemma_first_of_group(a, cands, n - 1);
    }
}

proof fn lemma_duration_of(titles: Seq<AnalysedTitleModel>, k: int)
    requires
        distinct_indices(titles),
        0 <= k < titles.len(),
    ensures
        duration_of(titles, titles[k].index) == Some(titles[k].duration_secs),
    decreases titles.len(),
{
    if k > 0 {
        let rest = titles.skip(1);
        assert(titles[0].index != titles[k].index);
        assert forall|i: int, j: int| 0 <= i < j < rest.len() implies (
        #[trigger] rest[i]).index != (#[trigger] rest[j]).index by {
            assert(rest[i] == titles[i + 1] && rest[j] == titles[j + 1]);
        }
        assert(rest[k - 1] == titles[k]);
        lemma_duration_of(rest, k - 1);
    }
}

/// The length of the title with an index, where there is one.
pub open spec fn plays(titles: Seq<AnalysedTitleModel>, index: u32, secs: u64) -> bool {
    exists|k: int|
        0 <= k < titles.len() && (#[trigger] titles[k]).index == index && titles[k].duration_secs
            == secs
}

proof fn lemma_plays(titles: Seq<AnalysedTitleModel>, index: u32, secs: u64)
    requires
        distinct_indices(titles),
    ensures
        plays(titles, index, secs) ==> duration_of(titles, index) == Some(secs),
{
    if plays(titles, index, secs) {
        let k = choose|k: int|
            0 <= k < titles.len() && (#[trigger] titles[k]).index == index
                && titles[k].duration_secs == secs;
        lemma_duration_of(titles, k);
    }
}

/// Of a group of titles whose repeats go, one title of each length stays: no two that
/// stay have the same length, and each that goes has the length of one that stays.
pub proof fn repeats_go_by_length(
    titles: Seq<AnalysedTitleModel>,
    group: Seq<u32>,
    n: int,
    i: int,
    x: u64,
    j: int,
    y: u64,
)
    requires
        distinct_indices(titles),
        0 <= n <= group.len(),
    ensures
        ({
            let kept = without_repeats(titles, group, n).0;
            &&& 0 <= i < j < kept.len() && plays(titles, kept[i], x) && plays(titles, kept[j], y)
                ==> x != y
            &&& 0 <= i < n && plays(titles, group[i], x) ==> exists|k: int|
                0 <= k < kept.len() && plays(titles, #[trigger] kept[k], x)
        }),
    decreases n,
{
    lemma_kept_lengths(titles, group, n);
    let (kept, seen) = without_repeats(titles, group, n);
    if 0 <= i < j < kept.len() && plays(titles, kept[i], x) && plays(titles, kept[j], y) {
        lemma_plays(titles, kept[i], x);
        lemma_plays(titles, kept[j], y);
        if x == y {
            lemma_kept_apart(titles, group, n, i, j);
        }
    }
    if 0 <= i < n && plays(titles, group[i], x) {
        lemma_length_kept(titles, group, n, i, x);
    }
}

/// Every length met is that of a title that stays.
proof fn lemma_kept_lengths(titles: Seq<AnalysedTitleModel>, group: Seq<u32>, n: int)
    requires
        0 <= n <= group.len(),
    ensures
        forall|s: int|
            0 <= s < without_repeats(titles, group, n).1.len() ==> kept_with(
                titles,
                without_repeats(titles, group, n).0,
                #[trigger] without_repeats(titles, group, n).1[s],
            ),
        forall|k: int|
            0 <= k < without_repeats(titles, group, n).0.len() ==> (duration_of(
                titles,
                #[trigger] without_repeats(titles, group, n).0[k],
            ) matches Some(d) ==> without_repeats(titles, group, n).1.contains(d)),
    decreases n,
{
    if n > 0 {
        lemma_kept_lengths(titles, group, n - 1);
        let (kept0, seen0) = without_repeats(titles, group, n - 1);
        let (kept, seen) = without_repeats(titles, group, n);
        assert forall|s: int| 0 <= s < seen.len() implies kept_with(
            titles,
            kept,
            #[trigger] seen[s],
        ) by {
            if s < seen0.len() {
                assert(seen[s] == seen0[s]);
                let k = choose|k: int|
                    0 <= k < kept0.len() && duration_of(titles, #[trigger] kept0[k]) == Some(
                        seen0[s],
                    );
                assert(kept[k] == kept0[k]);
            } else {
                assert(kept[kept0.len() as int] == group[n - 1]);
            }
        }
        assert forall|k: int| 0 <= k < kept.len() implies (duration_of(
            titles,
            #[trigger] kept[k],
        ) matches Some(d) ==> seen.contains(d)) by {
            if let Some(d) = duration_of(titles, kept[k]) {
                if k < kept0.len() {
                    assert(kept[k] == kept0[k]);
                    let s = choose|s: int| 0 <= s < seen0.len() && seen0[s] == d;
                    assert(seen[s] == d);
                } else {
                    assert(seen[seen0.len() as int] == d);
                }
            }
        }
    }
}

spec fn kept_with(titles: Seq<AnalysedTitleModel>, kept: Seq<u32>, d: u64) -> bool {
    exists|k: int| 0 <= k < kept.len() && duration_of(titles, #[trigger] kept[k]) == Some(d)
}

proof fn lemma_kept_apart(
    titles: Seq<AnalysedTitleModel>,
    group: Seq<u32>,
    n: int,
    i: int,
    j: int,
)
    requires
        0 <= n <= group.len(),
        0 <= i < j < without_repeats(titles, group, n).0.len(),
        duration_of(titles, without_repeats(titles, group, n).0[i]) is Some,
    ensures
        duration_of(titles, without_repeats(titles, group, n).0[i]) != duration_of(
            titles,
            without_repeats(titles, group, n).0[j],
        ),
    decreases n,
{
    let (kept0, seen0) = without_repeats(titles, group, n - 1);
    let kept = without_repeats(titles, group, n).0;
    if j < kept0.len() {
        assert(kept[i] == kept0[i] && kept[j] == kept0[j]);
        lemma_kept_apart(titles, group, n - 1, i, j);
    } else {
        lemma_kept_lengths(titles, group, n - 1);
        assert(kept[i] == kept0[i]);
        assert(kept[j] == group[n - 1]);
        let d = duration_of(titles, kept0[i])->0;
        assert(seen0.contains(d));
    }
}

proof fn lemma_length_kept(
    titles: Seq<AnalysedTitleModel>,
    group: Seq<u32>,
    n: int,
    i: int,
    x: u64,
)
    requires
        distinct_indices(titles),
        0 <= i < n <= group.len(),
        plays(titles, group[i], x),
    ensures
        exists|k: int|
            0 <= k < without_repeats(titles, group, n).0.len() && plays(
                titles,
                #[trigger] without_repeats(titles, group, n).0[k],
                x,
            ),
    decreases n,
{
    let (kept0, seen0) = without_repeats(titles, group, n - 1);
    let kept = without_repeats(titles, group, n).0;
    lemma_plays(titles, group[i], x);
    if i < n - 1 {
        lemma_length_kept(titles, group, n - 1, i, x);
        let k = choose|k: int| 0 <= k < kept0.len() && plays(titles, #[trigger] kept0[k], x);
        assert(kept[k] == kept0[k]);
    } else if seen0.contains(x) {
        lemma_kept_lengths(titles, group, n - 1);
        let s = choose|s: int| 0 <= s < seen0.len() && seen0[s] == x;
        assert(kept_with(titles, kept0, seen0[s]));
        let k = choose|k: int|
            0 <= k < kept0.len() && duration_of(titles, #[trigger] kept0[k]) == Some(x);
        assert(kept[k] == kept0[k]);
        lemma_duration_means_plays(titles, kept0[k], x);
    } else {
        assert(kept[kept0.len() as int] == group[n - 1]);
    }
}

proof fn lemma_duration_means_plays(titles: Seq<AnalysedTitleModel>, index: u32, x: u64)
    requires
        duration_of(titles, index) == Some(x),
    ensures
        plays(titles, index, x),
    decreases titles.len(),
{
    if titles[0].index != index {
        let rest = titles.skip(1);
        lemma_duration_means_plays(rest, index, x);
        let k = choose|k: int|
            0 <= k < rest.len() && (#[trigger] rest[k]).index == index && rest[k].duration_secs
                == x;
        assert(titles[k + 1] == rest[k]);
    } else {
        assert(titles[0].index == index);
    }
}

/// Groups of up to three titles stay whole; larger ones lose their repeats.
pub proof fn small_groups_stay_whole(titles: Seq<AnalysedTitleModel>, main_title: u32)
    ensures
        ({
            let cands = candidates(titles, titles.len() as int);
            let best = best_group(cands, cands.len() as int);
            &&& 2 <= best.len() <= 3 && cands.len() >= 2 ==> (disc_type_of(
                titles,
                main_title,
            ) matches DiscTypeModel::Show { episode_indices } && episode_indices.to_multiset()
                == best.to_multiset())
            &&& best.len() > 3 ==> (disc_type_of(
                titles,
                main_title,
            ) matches DiscTypeModel::Show { episode_indices } ==> episode_indices.to_multiset()
                == without_repeats(titles, best, best.len() as int).0.to_multiset())
        }),
{
    let cands = candidates(titles, titles.len() as int);
    let best = best_group(cands, cands.len() as int);
    ordering_sorts(best);
    ordering_sorts(without_repeats(titles, best, best.len() as int).0);
}

// --- scores and order ---

/// A title goes before another of the same disc where it is the main title, or
/// where neither is and it is longer in kind: more than ten minutes before less,
/// five minutes or more before less than five.
pub proof fn likelier_titles_come_first(
    a: AnalysedTitleModel,
    b: AnalysedTitleModel,
    main_title: u32,
)
    requires
        a.index != b.index,
        b.index != main_title,
    ensures
        a.index == main_title ==> precedes(scored(a, main_title), scored(b, main_title)),
        a.index != main_title && a.duration_secs > 600 && b.duration_secs <= 600 ==> precedes(
            scored(a, main_title),
            scored(b, main_title),
        ),
        a.index != main_title && a.duration_secs >= 300 && b.duration_secs < 300 ==> precedes(
            scored(a, main_title),
            scored(b, main_title),
        ),
        a.index != main_title && (a.duration_secs > 600 <==> b.duration_secs > 600) && (
        a.duration_secs < 300 <==> b.duration_secs < 300) ==> (precedes(
            scored(a, main_title),
            scored(b, main_title),
        ) <==> a.index < b.index),
        scored(a, main_title).index == a.index,
        scored(a, main_title).duration_secs == a.duration_secs,
        scored(a, main_title).audio_streams == a.audio_streams,
        scored(a, main_title).subtitle_streams == a.subtitle_streams,
        scored(a, main_title).chapters == a.chapters,
{
}

/// A title's score is 5 higher as the main title, and -1, 0 or 1 else.
pub proof fn scores_add_up(index: u32, other: u32, secs: u64)
    requires
        index != other,
    ensures
        score_of(index, secs, index) == score_of(index, secs, other) + 5,
        secs < 300 ==> score_of(index, secs, other) == -1,
        300 <= secs <= 600 ==> score_of(index, secs, other) == 0,
        secs > 600 ==> score_of(index, secs, other) == 1,
{
}

// --- what is known of a title ---

/// A title of a Blu-ray disc keeps its numbers, its length is the number of whole
/// seconds of 90 000 ticks in its duration, its chapters are those of the disc, and
/// its streams are those of its first clip, in order.
pub proof fn titles_are_described_as_they_are(t: BdTitle, c: int, s: int, g: int)
    ensures
        described(t).index == t.idx,
        described(t).playlist == t.playlist,
        described(t).chapter_count == t.chapter_count,
        described(t).duration_secs * 90_000 <= t.duration < (described(t).duration_secs + 1)
            * 90_000,
        described(t).chapters.len() == t.chapters.len(),
        0 <= c < t.chapters.len() ==> described(t).chapters[c].index == t.chapters[c].idx
            && described(t).chapters[c].start_ticks == t.chapters[c].start && described(
            t,
        ).chapters[c].duration_ticks == t.chapters[c].duration,
        t.clips.len() == 0 ==> described(t).audio_streams.len() == 0 && described(
            t,
        ).subtitle_streams.len() == 0,
        t.clips.len() > 0 ==> described(t).audio_streams.len() == t.clips[0].audio_streams.len()
            && described(t).subtitle_streams.len() == t.clips[0].pg_streams.len(),
        t.clips.len() > 0 && 0 <= s < t.clips[0].audio_streams.len() ==> {
            let got = described(t).audio_streams[s];
            let given = t.clips[0].audio_streams[s];
            &&& got.index_in_clip == s
            &&& got.pid == given.pid
            &&& got.coding_type == given.coding_type
            &&& got.language == lang_of(given.lang@)
        },
        t.clips.len() > 0 && 0 <= g < t.clips[0].pg_streams.len() ==> {
            let got = described(t).subtitle_streams[g];
            let given = t.clips[0].pg_streams[g];
            &&& got.index_in_clip == g
            &&& got.pid == given.pid
            &&& !got.forced
            &&& got.language == lang_of(given.lang@)
        },
{
}

/// A Blu-ray disc is analysed with every title it has and the main title it names.
pub proof fn discs_are_analysed_whole(titles: Seq<BdTitle>, main_title: u32)
    ensures
        ({
            let a = bluray_analysis(titles, main_title);
            &&& a.titles.len() == titles.len()
            &&& a.main_title_idx == main_title
            &&& a.format is BluRay
        }),
{
    ranking_sorts(scored_titles(described_titles(titles), main_title));
}

/// Of the groups with the most titles, that of the first candidate is taken.
pub proof fn the_first_of_the_largest_groups_is_taken(
    cands: Seq<AnalysedTitleModel>,
    n: int,
    k: int,
)
    requires
        0 <= k < n <= cands.len(),
        forall|j: int|
            0 <= j < k ==> group_of(#[trigger] cands[j], cands, cands.len() as int).len()
                < group_of(cands[k], cands, cands.len() as int).len(),
        forall|j: int|
            k < j < n ==> group_of(#[trigger] cands[j], cands, cands.len() as int).len()
                <= group_of(cands[k], cands, cands.len() as int).len(),
    ensures
        best_group(cands, n) == group_of(cands[k], cands, cands.len() as int),
    decreases n,
{
    let all = cands.len() as int;
    lemma_groups_are_not_empty(cands[k], cands, all);
    if k < n - 1 {
        the_first_of_the_largest_groups_is_taken(cands, n - 1, k);
        assert(group_of(cands[n - 1], cands, all).len() <= group_of(cands[k], cands, all).len());
    } else if n > 1 {
        the_largest_group_is_taken(cands, n - 1, 0);
        let a = choose|a: int|
            0 <= a < n - 1 && best_group(cands, n - 1) == group_of(#[trigger] cands[a], cands, all);
        assert(group_of(cands[a], cands, all).len() < group_of(cands[k], cands, all).len());
    } else {
        assert(best_group(cands, 0).len() == 0);
    }
}

/// The language of a stream is the text up to the first zero byte; where that is no
/// text, it is undetermined.
pub proof fn languages_end_at_the_first_zero(code: Seq<u8>, rest: Seq<u8>)
    requires
        !code.contains(0u8),
    ensures
        vstd::utf8::valid_utf8(code) ==> lang_of(code.push(0u8) + rest)
            == vstd::utf8::decode_utf8(code),
        !vstd::utf8::valid_utf8(code) ==> lang_of(code.push(0u8) + rest) == "und"@,
{
    text::texts_end_at_the_first_zero(code, rest);
}

} // verus!
