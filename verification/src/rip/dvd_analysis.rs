//! What is on a DVD, in the same shape as for a Blu-ray disc. Stream "PIDs" are
//! MPEG-PS stream ids and chapter ticks are 90 kHz.
use vstd::prelude::*;

use super::analysis;
use super::analysis::{
    AnalysedTitle, AudioStreamInfo, ChapterMark, SubtitleStreamInfo, TitleAnalysis,
};
use crate::disc::DiscFormat;
use crate::dvd::ifo;
use crate::dvd::ifo::{Pgc, VmgTitle, VtsInfo};
use crate::dvd::VtsRead;
use crate::{dvd, list, text};

verus! {

// --- chapters ---

/// Where a program starts on the angle-1 timeline: where its entry cell does. An
/// entry cell that does not exist starts at 0.
pub open spec fn program_start(pgc: ifo::PgcModel, i: int) -> nat {
    let cell = pgc.program_entry_cells[i] - 1;
    if 0 <= cell < pgc.cells.len() {
        ifo::angle1_ticks(pgc.cells.take(cell))
    } else {
        0
    }
}

/// Where a program ends: where the next one starts, or with the whole chain.
pub open spec fn program_end(pgc: ifo::PgcModel, i: int) -> nat {
    if i + 1 < pgc.program_entry_cells.len() {
        program_start(pgc, i + 1)
    } else {
        pgc.playback_ticks as nat
    }
}

/// One chapter for each program. One that would end before it starts has no
/// length.
pub open spec fn chapters_of(pgc: ifo::PgcModel) -> Seq<ChapterMark> {
    Seq::new(
        pgc.program_entry_cells.len(),
        |i: int|
            ChapterMark {
                index: i as u32,
                start_ticks: program_start(pgc, i) as u64,
                duration_ticks: (if program_end(pgc, i) > program_start(pgc, i) {
                    program_end(pgc, i) - program_start(pgc, i)
                } else {
                    0
                }) as u64,
            },
    )
}

/// Chapters are the PGC's programs; start times come from the entry cell's
/// position on the angle-1 timeline, expressed in 90 kHz ticks like Blu-ray.
pub fn build_chapters(pgc: &Pgc) -> (r: Vec<ChapterMark>)
    requires
        pgc.deep_view().well_formed(),
    ensures
        r@ == chapters_of(pgc.deep_view()),
{
    let ghost model = pgc.deep_view();
    let cell_starts = pgc.cell_start_times();
    let mut starts: Vec<u64> = Vec::new();
    let mut i: usize = 0;
    while i < pgc.program_entry_cells.len()
        invariant
            i <= pgc.program_entry_cells.len(),
            model == pgc.deep_view(),
            model.well_formed(),
            cell_starts@ == Seq::new(
                model.cells.len(),
                |k: int| ifo::angle1_ticks(model.cells.take(k)) as u64,
            ),
            starts.len() == i,
            forall|k: int| 0 <= k < i ==> #[trigger] starts[k] == program_start(model, k),
        decreases pgc.program_entry_cells.len() - i,
    {
        let cell_nr: usize = pgc.program_entry_cells[i] as usize;
        let start: u64 = if cell_nr >= 1 && cell_nr <= cell_starts.len() {
            cell_starts[cell_nr - 1]
        } else {
            0
        };
        proof {
            if 1 <= cell_nr <= model.cells.len() {
                ifo::lemma_angle1_ticks_grow(model.cells, cell_nr - 1);
            }
        }
        starts.push(start);
        i = i + 1;
    }
    let mut marks: Vec<ChapterMark> = Vec::new();
    let mut j: usize = 0;
    while j < starts.len()
        invariant
            j <= starts.len(),
            model == pgc.deep_view(),
            model.well_formed(),
            starts.len() == model.program_entry_cells.len(),
            forall|k: int|
                0 <= k < starts.len() ==> #[trigger] starts[k] == program_start(model, k),
            marks@ == chapters_of(model).take(j as int),
        decreases starts.len() - j,
    {
        let start: u64 = starts[j];
        let end: u64 = if j + 1 < starts.len() {
            starts[j + 1]
        } else {
            pgc.playback_ticks
        };
        let duration_ticks: u64 = if end > start {
            end - start
        } else {
            0
        };
        marks.push(ChapterMark { index: j as u32, start_ticks: start, duration_ticks });
        assert(marks@ =~= chapters_of(model).take(j + 1));
        j = j + 1;
    }
    assert(chapters_of(model).take(j as int) =~= chapters_of(model));
    marks
}

/// Where a program starts no later than the next one, and the last one no later
/// than the chain ends, every chapter ends where the next one starts, and the
/// last one with the chain.
pub proof fn chapters_follow_each_other(pgc: ifo::PgcModel, i: int)
    requires
        pgc.well_formed(),
        0 <= i < pgc.program_entry_cells.len(),
        program_start(pgc, i) <= program_end(pgc, i),
    ensures
        chapters_of(pgc)[i].start_ticks + chapters_of(pgc)[i].duration_ticks == if i + 1
            < pgc.program_entry_cells.len() {
            chapters_of(pgc)[i + 1].start_ticks
        } else {
            pgc.playback_ticks
        },
{
    lemma_start_fits(pgc, i);
    if i + 1 < pgc.program_entry_cells.len() {
        lemma_start_fits(pgc, i + 1);
    }
}

proof fn lemma_start_fits(pgc: ifo::PgcModel, i: int)
    requires
        pgc.well_formed(),
        0 <= i < pgc.program_entry_cells.len(),
    ensures
        program_start(pgc, i) <= u64::MAX,
{
    let cell = pgc.program_entry_cells[i] - 1;
    if 0 <= cell < pgc.cells.len() {
        ifo::lemma_angle1_ticks_grow(pgc.cells, cell);
    }
}

// --- streams ---

/// The three-letter code of a language that may be missing.
pub open spec fn stream_language(lang: Option<Seq<char>>) -> Seq<char> {
    match lang {
        Some(code) => ifo::language_of(code),
        None => "und"@,
    }
}

fn language_code(lang: &Option<String>) -> (r: String)
    ensures
        r@ == stream_language(lang.deep_view()),
{
    match lang {
        Some(code) => ifo::iso639_1_to_2(code.as_str()),
        None => "und".to_owned(),
    }
}

/// Those of the first `n` audio streams that the chain plays.
pub open spec fn audio_streams_of(
    attrs: Seq<ifo::AudioAttrModel>,
    control: Seq<u16>,
    n: int,
) -> Seq<analysis::AudioStreamModel>
    decreases n,
{
    if n <= 0 {
        Seq::empty()
    } else {
        let before = audio_streams_of(attrs, control, n - 1);
        if dvd::audio_present(control[n - 1]) {
            before.push(
                analysis::AudioStreamModel {
                    index_in_clip: before.len() as usize,
                    pid: (attrs[n - 1].coding.first_stream_id() + dvd::audio_number(
                        control[n - 1],
                    )) as u16,
                    language: stream_language(attrs[n - 1].lang),
                    coding_type: attrs[n - 1].coding.bd_coding_type(),
                },
            )
        } else {
            before
        }
    }
}

pub fn build_audio_streams(vts: &VtsInfo, pgc: &Pgc) -> (r: Vec<AudioStreamInfo>)
    requires
        vts.well_formed(),
    ensures
        r.deep_view() == audio_streams_of(
            vts.deep_view().audio_attrs,
            pgc.deep_view().audio_control,
            vts.audio_attrs.len() as int,
        ),
{
    let ghost attrs = vts.audio_attrs.deep_view();
    let mut streams: Vec<AudioStreamInfo> = list::empty();
    let mut i: usize = 0;
    while i < vts.audio_attrs.len()
        invariant
            i <= vts.audio_attrs.len() <= 8,
            attrs == vts.audio_attrs.deep_view(),
            streams.deep_view() == audio_streams_of(attrs, pgc.audio_control@, i as int),
        decreases vts.audio_attrs.len() - i,
    {
        let attr = &vts.audio_attrs[i];
        assert(attrs[i as int] == attr.deep_view());
        assert(streams.deep_view().len() == streams.len());
        if let Some(n) = dvd::audio_stream_number(pgc.audio_control[i]) {
            let info = AudioStreamInfo {
                index_in_clip: streams.len(),
                pid: ifo::audio_stream_id(attr.coding, n),
                language: language_code(&attr.lang),
                coding_type: attr.coding.as_bd_coding_type(),
            };
            list::push(&mut streams, info);
        }
        i = i + 1;
    }
    streams
}

/// Those of the first `n` subtitle streams that the chain plays.
pub open spec fn subtitle_streams_of(
    attrs: Seq<ifo::SubpAttrModel>,
    control: Seq<u32>,
    widescreen: bool,
    n: int,
) -> Seq<analysis::SubtitleStreamModel>
    decreases n,
{
    if n <= 0 {
        Seq::empty()
    } else {
        let before = subtitle_streams_of(attrs, control, widescreen, n - 1);
        if dvd::subp_present(control[n - 1]) {
            before.push(
                analysis::SubtitleStreamModel {
                    index_in_clip: before.len() as usize,
                    pid: (0x20 + dvd::subp_number(control[n - 1], widescreen)) as u16,
                    language: stream_language(attrs[n - 1].lang),
                    forced: false,
                },
            )
        } else {
            before
        }
    }
}

pub fn build_subtitle_streams(vts: &VtsInfo, pgc: &Pgc) -> (r: Vec<SubtitleStreamInfo>)
    requires
        vts.well_formed(),
    ensures
        r.deep_view() == subtitle_streams_of(
            vts.deep_view().subp_attrs,
            pgc.deep_view().subp_control,
            vts.widescreen,
            vts.subp_attrs.len() as int,
        ),
{
    let ghost attrs = vts.subp_attrs.deep_view();
    let mut streams: Vec<SubtitleStreamInfo> = list::empty();
    let mut i: usize = 0;
    while i < vts.subp_attrs.len()
        invariant
            i <= vts.subp_attrs.len() <= 32,
            attrs == vts.subp_attrs.deep_view(),
            streams.deep_view() == subtitle_streams_of(
                attrs,
                pgc.subp_control@,
                vts.widescreen,
                i as int,
            ),
        decreases vts.subp_attrs.len() - i,
    {
        let attr = &vts.subp_attrs[i];
        assert(attrs[i as int] == attr.deep_view());
        assert(streams.deep_view().len() == streams.len());
        let ctrl: u32 = pgc.subp_control[i];
        if dvd::has_subpicture(ctrl) {
            let n: u8 = dvd::subp_stream_number(ctrl, vts.widescreen);
            let info = SubtitleStreamInfo {
                index_in_clip: streams.len(),
                pid: ifo::subp_stream_id(n),
                language: language_code(&attr.lang),
                forced: false,
            };
            list::push(&mut streams, info);
        }
        i = i + 1;
    }
    streams
}

// --- titles ---

/// The title sets that have to be read for some titles, each once, in the order
/// in which they are first met.
pub open spec fn needed_sets(vmg: Seq<VmgTitle>) -> Seq<u8>
    decreases vmg.len(),
{
    if vmg.len() == 0 {
        Seq::empty()
    } else {
        let before = needed_sets(vmg.drop_last());
        if before.contains(vmg.last().title_set_nr) {
            before
        } else {
            before.push(vmg.last().title_set_nr)
        }
    }
}

/// The title sets that have to be read for some titles.
pub fn sets_to_read(vmg: &Vec<VmgTitle>) -> (r: Vec<u8>)
    ensures
        r@ == needed_sets(vmg@),
{
    let mut sets: Vec<u8> = Vec::new();
    let mut i: usize = 0;
    while i < vmg.len()
        invariant
            i <= vmg.len(),
            sets@ == needed_sets(vmg@.take(i as int)),
        decreases vmg.len() - i,
    {
        let set: u8 = vmg[i].title_set_nr;
        let mut k: usize = 0;
        while k < sets.len() && sets[k] != set
            invariant
                k <= sets.len(),
                forall|j: int| 0 <= j < k ==> sets@[j] != set,
            decreases sets.len() - k,
        {
            k = k + 1;
        }
        assert(vmg@.take(i + 1).drop_last() =~= vmg@.take(i as int));
        if k == sets.len() {
            assert(!sets@.contains(set));
            sets.push(set);
        } else {
            assert(sets@.contains(set));
        }
        i = i + 1;
    }
    assert(vmg@.take(i as int) =~= vmg@);
    sets
}

/// Every title set of a title is among those to be read.
pub proof fn needed_sets_serve_every_title(vmg: Seq<VmgTitle>, i: int)
    requires
        0 <= i < vmg.len(),
    ensures
        needed_sets(vmg).contains(vmg[i].title_set_nr),
        needed_sets(vmg).no_duplicates(),
    decreases vmg.len(),
{
    let rest = vmg.drop_last();
    let before = needed_sets(rest);
    let after = needed_sets(vmg);
    if rest.len() > 0 {
        needed_sets_serve_every_title(rest, if i < rest.len() {
            i
        } else {
            0
        });
    }
    if !before.contains(vmg.last().title_set_nr) {
        assert(after[before.len() as int] == vmg.last().title_set_nr);
    }
    if i < rest.len() {
        let k = choose|k: int| 0 <= k < before.len() && before[k] == rest[i].title_set_nr;
        assert(after[k] == vmg[i].title_set_nr);
    }
}

/// A title set among those that were read, by its number.
pub open spec fn set_position(sets: Seq<(u8, VtsRead)>, nr: u8) -> int
    decreases sets.len(),
{
    if sets.len() == 0 || sets[0].0 == nr {
        0
    } else {
        1 + set_position(sets.skip(1), nr)
    }
}

proof fn lemma_set_position(sets: Seq<(u8, VtsRead)>, nr: u8, n: int)
    requires
        0 <= n <= sets.len(),
        forall|i: int| 0 <= i < n ==> (#[trigger] sets[i]).0 != nr,
        n < sets.len() ==> sets[n].0 == nr,
    ensures
        set_position(sets, nr) == n,
    decreases sets.len(),
{
    if n > 0 {
        let rest = sets.skip(1);
        assert forall|i: int| 0 <= i < n - 1 implies (#[trigger] rest[i]).0 != nr by {
            assert(rest[i] == sets[i + 1]);
        }
        lemma_set_position(rest, nr, n - 1);
    }
}

fn find_set(sets: &Vec<(u8, VtsRead)>, nr: u8) -> (r: usize)
    ensures
        r == set_position(sets@, nr),
        r <= sets.len(),
{
    let mut i: usize = 0;
    while i < sets.len() && sets[i].0 != nr
        invariant
            i <= sets.len(),
            forall|k: int| 0 <= k < i ==> (#[trigger] sets@[k]).0 != nr,
        decreases sets.len() - i,
    {
        i = i + 1;
    }
    proof {
        lemma_set_position(sets@, nr, i as int);
    }
    i
}

/// A title that plays a program chain, before it is scored.
pub open spec fn described(
    entry: VmgTitle,
    vts: ifo::VtsModel,
    pgc: ifo::PgcModel,
) -> analysis::AnalysedTitleModel {
    analysis::AnalysedTitleModel {
        index: entry.title_nr,
        playlist: entry.title_set_nr as u32,
        duration_secs: pgc.playback_ticks / ifo::TICKS_PER_SECOND,
        chapter_count: pgc.program_entry_cells.len() as u32,
        chapters: chapters_of(pgc),
        audio_streams: audio_streams_of(
            vts.audio_attrs,
            pgc.audio_control,
            vts.audio_attrs.len() as int,
        ),
        subtitle_streams: subtitle_streams_of(
            vts.subp_attrs,
            pgc.subp_control,
            vts.widescreen,
            vts.subp_attrs.len() as int,
        ),
        score: 0,
    }
}

/// What a title holds; none where its title set could not be read or it plays no
/// program chain.
pub open spec fn playable(entry: VmgTitle, sets: Seq<(u8, VtsRead)>) -> Option<
    analysis::AnalysedTitleModel,
> {
    let n = set_position(sets, entry.title_set_nr);
    if n < sets.len() {
        match sets[n].1 {
            VtsRead::Read(vts) => match vts.deep_view().pgcn_for_title(entry.vts_ttn) {
                Some(pgcn) => Some(
                    described(entry, vts.deep_view(), vts.deep_view().pgcs[pgcn - 1]),
                ),
                None => None,
            },
            VtsRead::Failed(_) => None,
        }
    } else {
        None
    }
}

/// Those of the first `n` titles that can be played.
pub open spec fn playable_titles(vmg: Seq<VmgTitle>, sets: Seq<(u8, VtsRead)>, n: int) -> Seq<
    analysis::AnalysedTitleModel,
>
    decreases n,
{
    if n <= 0 {
        Seq::empty()
    } else {
        match playable(vmg[n - 1], sets) {
            Some(t) => playable_titles(vmg, sets, n - 1).push(t),
            None => playable_titles(vmg, sets, n - 1),
        }
    }
}

/// What is said of a title whose title set could not be read.
pub open spec fn skip_text(entry: VmgTitle, error: Seq<char>) -> Seq<char> {
    "Warning: skipping title "@ + text::decimal(entry.title_nr as nat) + " (VTS "@ + text::decimal(
        entry.title_set_nr as nat,
    ) + " unreadable: "@ + error + ")"@
}

/// The warnings about the first `n` titles.
pub open spec fn skip_warnings(vmg: Seq<VmgTitle>, sets: Seq<(u8, VtsRead)>, n: int) -> Seq<
    Seq<char>,
>
    decreases n,
{
    if n <= 0 {
        Seq::empty()
    } else {
        let before = skip_warnings(vmg, sets, n - 1);
        let k = set_position(sets, vmg[n - 1].title_set_nr);
        if k < sets.len() && sets[k].1 is Failed {
            before.push(skip_text(vmg[n - 1], sets[k].1->Failed_0@))
        } else {
            before
        }
    }
}

/// The titles that can be played, and a warning for each whose title set could
/// not be read.
fn describe_titles(vmg: &Vec<VmgTitle>, sets: &Vec<(u8, VtsRead)>) -> (r: (
    Vec<AnalysedTitle>,
    Vec<String>,
))
    requires
        forall|i: int| 0 <= i < sets.len() ==> (#[trigger] sets[i]).1.well_formed(),
    ensures
        r.0.deep_view() == playable_titles(vmg@, sets@, vmg.len() as int),
        r.1.deep_view() == skip_warnings(vmg@, sets@, vmg.len() as int),
{
    let mut titles: Vec<AnalysedTitle> = list::empty();
    let mut warnings: Vec<String> = list::empty();
    let mut i: usize = 0;
    while i < vmg.len()
        invariant
            i <= vmg.len(),
            forall|k: int| 0 <= k < sets.len() ==> (#[trigger] sets[k]).1.well_formed(),
            titles.deep_view() == playable_titles(vmg@, sets@, i as int),
            warnings.deep_view() == skip_warnings(vmg@, sets@, i as int),
        decreases vmg.len() - i,
    {
        let entry = vmg[i];
        let n: usize = find_set(sets, entry.title_set_nr);
        if n < sets.len() {
            assert(sets[n as int].1.well_formed());
            match &sets[n].1 {
                VtsRead::Read(vts) => {
                    if let Some((pgcn, pgc)) = vts.pgc_for_title(entry.vts_ttn) {
                        assert(vts.deep_view().pgcs[pgcn - 1] == pgc.deep_view());
                        assert(vts.pgcs@[pgcn - 1].deep_view().well_formed());
                        let title = AnalysedTitle {
                            index: entry.title_nr,
                            playlist: entry.title_set_nr as u32,
                            duration_secs: pgc.playback_ticks / ifo::TICKS_PER_SECOND,
                            chapter_count: pgc.program_entry_cells.len() as u32,
                            chapters: build_chapters(pgc),
                            audio_streams: build_audio_streams(vts, pgc),
                            subtitle_streams: build_subtitle_streams(vts, pgc),
                            score: 0,
                        };
                        list::push(&mut titles, title);
                    }
                },
                VtsRead::Failed(error) => {
                    let mut warning = "Warning: skipping title ".to_owned();
                    text::push_decimal(&mut warning, entry.title_nr as u64);
                    warning.append(" (VTS ");
                    text::push_decimal(&mut warning, entry.title_set_nr as u64);
                    warning.append(" unreadable: ");
                    warning.append(error.as_str());
                    warning.append(")");
                    list::push(&mut warnings, warning);
                },
            }
        }
        i = i + 1;
    }
    (titles, warnings)
}

/// The longest of the first `n` titles, the last of several that are equally
/// long.
pub open spec fn longest(titles: Seq<analysis::AnalysedTitleModel>, n: int) -> int
    decreases n,
{
    if n <= 1 {
        0
    } else {
        let best = longest(titles, n - 1);
        if titles[n - 1].duration_secs >= titles[best].duration_secs {
            n - 1
        } else {
            best
        }
    }
}

fn find_longest(titles: &Vec<AnalysedTitle>) -> (r: usize)
    requires
        titles.len() > 0,
    ensures
        r == longest(titles.deep_view(), titles.len() as int),
        r < titles.len(),
{
    let ghost models = titles.deep_view();
    let mut best: usize = 0;
    let mut i: usize = 1;
    while i < titles.len()
        invariant
            1 <= i <= titles.len(),
            models == titles.deep_view(),
            best < i,
            best == longest(models, i as int),
        decreases titles.len() - i,
    {
        assert(models[i as int] == titles[i as int].deep_view());
        assert(models[best as int] == titles[best as int].deep_view());
        if titles[i].duration_secs >= titles[best].duration_secs {
            best = i;
        }
        i = i + 1;
    }
    best
}

/// No title is longer than the one taken for the main title, and those behind it
/// are shorter.
pub proof fn main_title_is_longest(titles: Seq<analysis::AnalysedTitleModel>, n: int, i: int)
    requires
        0 <= i < n <= titles.len(),
    ensures
        0 <= longest(titles, n) < n,
        titles[i].duration_secs <= titles[longest(titles, n)].duration_secs,
        i > longest(titles, n) ==> titles[i].duration_secs < titles[longest(
            titles,
            n,
        )].duration_secs,
    decreases n,
{
    if n > 1 {
        main_title_is_longest(titles, n - 1, if i < n - 1 {
            i
        } else {
            0
        });
    }
}

/// What is on a DVD, or why it cannot be used. DVDs have no "main title" marker;
/// the longest title is the best guess.
pub open spec fn dvd_analysis(vmg: Seq<VmgTitle>, sets: Seq<(u8, VtsRead)>) -> Result<
    analysis::TitleAnalysisModel,
    Seq<char>,
> {
    let titles = playable_titles(vmg, sets, vmg.len() as int);
    if vmg.len() == 0 {
        Err("DVD has no titles"@)
    } else if titles.len() == 0 {
        Err("No playable titles found on DVD"@)
    } else {
        let main_title = titles[longest(titles, titles.len() as int)].index;
        let sorted = analysis::ranked(analysis::scored_titles(titles, main_title));
        Ok(
            analysis::TitleAnalysisModel {
                titles: sorted,
                main_title_idx: main_title,
                detected_type: analysis::disc_type_of(sorted, main_title),
                format: DiscFormat::Dvd,
            },
        )
    }
}

/// The outcome of looking at a DVD.
#[derive(Debug)]
pub struct DvdAnalysis {
    pub outcome: Result<TitleAnalysis, String>,
    /// What the user is warned of, whatever the outcome.
    pub warnings: Vec<String>,
}

/// Analyse a DVD into the same `TitleAnalysis` shape the Blu-ray path
/// produces, so the selection, stream matching, and transcoding work
/// unchanged. `sets` holds the title sets by their numbers.
pub fn analyse_dvd(vmg: &Vec<VmgTitle>, sets: &Vec<(u8, VtsRead)>) -> (r: DvdAnalysis)
    requires
        forall|i: int| 0 <= i < sets.len() ==> (#[trigger] sets[i]).1.well_formed(),
    ensures
        match r.outcome {
            Ok(found) => dvd_analysis(vmg@, sets@) == Ok::<analysis::TitleAnalysisModel, Seq<char>>(
                found.deep_view(),
            ),
            Err(message) => dvd_analysis(vmg@, sets@) == Err::<
                analysis::TitleAnalysisModel,
                Seq<char>,
            >(message@),
        },
        r.warnings.deep_view() == skip_warnings(vmg@, sets@, vmg.len() as int),
{
    let (mut titles, warnings) = describe_titles(vmg, sets);
    if vmg.len() == 0 {
        return DvdAnalysis { outcome: Err("DVD has no titles".to_owned()), warnings };
    }
    let ghost models = titles.deep_view();
    assert(models.len() == titles.len());
    if titles.len() == 0 {
        return DvdAnalysis {
            outcome: Err("No playable titles found on DVD".to_owned()),
            warnings,
        };
    }
    let best: usize = find_longest(&titles);
    assert(models[best as int] == titles[best as int].deep_view());
    let main_title: u32 = titles[best].index;
    let detected_type = analysis::score_and_detect(&mut titles, main_title);
    DvdAnalysis {
        outcome: Ok(
            TitleAnalysis {
                titles,
                main_title_idx: main_title,
                detected_type,
                format: DiscFormat::Dvd,
            },
        ),
        warnings,
    }
}

/// A title of a DVD is described by the chain that plays it: its number and title
/// set, its length in whole seconds of 90,000 ticks, and a chapter for each program.
pub proof fn titles_are_described_by_their_chain(
    entry: VmgTitle,
    vts: ifo::VtsModel,
    pgc: ifo::PgcModel,
    i: int,
)
    requires
        0 <= i < pgc.program_entry_cells.len() <= u32::MAX,
        ifo::angle1_ticks(pgc.cells) <= u64::MAX,
    ensures
        ({
            let t = described(entry, vts, pgc);
            let cell = pgc.program_entry_cells[i] - 1;
            &&& t.index == entry.title_nr
            &&& t.playlist == entry.title_set_nr
            &&& 90_000 * t.duration_secs <= pgc.playback_ticks < 90_000 * (t.duration_secs + 1)
            &&& t.chapter_count == pgc.program_entry_cells.len()
            &&& t.chapters.len() == pgc.program_entry_cells.len()
            &&& t.chapters[i].index == i
            &&& 0 <= cell < pgc.cells.len() ==> t.chapters[i].start_ticks == ifo::angle1_ticks(
                pgc.cells.take(cell),
            )
            &&& i == t.chapters.len() - 1 && t.chapters[i].start_ticks <= pgc.playback_ticks
                ==> t.chapters[i].start_ticks + t.chapters[i].duration_ticks == pgc.playback_ticks
            &&& i + 1 < t.chapters.len() && t.chapters[i].start_ticks <= t.chapters[i
                + 1].start_ticks ==> t.chapters[i].start_ticks + t.chapters[i].duration_ticks
                == t.chapters[i + 1].start_ticks
        }),
{
    lemma_program_start(pgc, i);
    if i + 1 < pgc.program_entry_cells.len() {
        lemma_program_start(pgc, i + 1);
    }
}

/// A program starts within the timeline of angle 1.
proof fn lemma_program_start(pgc: ifo::PgcModel, i: int)
    requires
        0 <= i < pgc.program_entry_cells.len(),
    ensures
        program_start(pgc, i) <= ifo::angle1_ticks(pgc.cells),
{
    let cell = pgc.program_entry_cells[i] - 1;
    if 0 <= cell < pgc.cells.len() {
        ifo::lemma_angle1_ticks_grow(pgc.cells, cell);
    }
}

/// Each audio attribute whose control word has its top bit set gives a stream: it is
/// counted up from the streams before it, has the identifier of its coding plus its
/// number, and its language. The others give none.
pub proof fn present_audio_streams_are_listed(
    attrs: Seq<ifo::AudioAttrModel>,
    control: Seq<u16>,
    k: int,
    n: int,
)
    requires
        0 <= k < n <= attrs.len(),
        n <= 8,
    ensures
        ({
            let streams = audio_streams_of(attrs, control, n);
            let j = audio_streams_of(attrs, control, k).len();
            &&& control[k] < 0x8000 ==> audio_streams_of(attrs, control, k + 1).len() == j
            &&& control[k] >= 0x8000 ==> {
                &&& audio_streams_of(attrs, control, k + 1).len() == j + 1
                &&& j < streams.len()
                &&& streams[j as int].index_in_clip == j
                &&& streams[j as int].pid == control[k] as int / 0x100 % 8 + match attrs[k].coding {
                    ifo::AudioCoding::Ac3 => 0x80int,
                    ifo::AudioCoding::Dts => 0x88,
                    ifo::AudioCoding::Lpcm => 0xA0,
                    ifo::AudioCoding::Mpeg1 => 0x1C0,
                    ifo::AudioCoding::Mpeg2Ext => 0x1C0,
                    ifo::AudioCoding::Unknown(_) => 0x80,
                }
                &&& streams[j as int].coding_type == match attrs[k].coding {
                    ifo::AudioCoding::Ac3 => 0x81u8,
                    ifo::AudioCoding::Dts => 0x82,
                    ifo::AudioCoding::Lpcm => 0x80,
                    ifo::AudioCoding::Mpeg1 => 0x03,
                    ifo::AudioCoding::Mpeg2Ext => 0x03,
                    ifo::AudioCoding::Unknown(_) => 0x00,
                }
                &&& attrs[k].lang is None ==> streams[j as int].language == "und"@
                &&& attrs[k].lang matches Some(code) ==> streams[j as int].language
                    == ifo::language_of(code)
            }
        }),
    decreases n,
{
    lemma_audio_count(attrs, control, n - 1);
    dvd::control_words_say_what_their_bits_say(control[k], 0);
    if k < n - 1 {
        present_audio_streams_are_listed(attrs, control, k, n - 1);
    }
}

proof fn lemma_audio_count(attrs: Seq<ifo::AudioAttrModel>, control: Seq<u16>, n: int)
    ensures
        audio_streams_of(attrs, control, n).len() <= if n <= 0 {
            0
        } else {
            n
        },
    decreases n,
{
    if n > 0 {
        lemma_audio_count(attrs, control, n - 1);
    }
}

/// Each subpicture attribute whose control word has its top bit set gives a stream:
/// it is counted up from the streams before it, has the identifier 0x20 plus the
/// number for the shape of the picture, and its language; it is not forced. The
/// others give none.
pub proof fn present_subpictures_are_listed(
    attrs: Seq<ifo::SubpAttrModel>,
    control: Seq<u32>,
    widescreen: bool,
    k: int,
    n: int,
)
    requires
        0 <= k < n <= attrs.len(),
        n <= 32,
    ensures
        ({
            let streams = subtitle_streams_of(attrs, control, widescreen, n);
            let j = subtitle_streams_of(attrs, control, widescreen, k).len();
            let after = subtitle_streams_of(attrs, control, widescreen, k + 1).len();
            &&& control[k] < 0x8000_0000 ==> after == j
            &&& control[k] >= 0x8000_0000 ==> {
                &&& after == j + 1
                &&& j < streams.len()
                &&& streams[j as int].index_in_clip == j
                &&& widescreen ==> streams[j as int].pid == 0x20 + control[k] as int / 0x1_0000
                    % 32
                &&& !widescreen ==> streams[j as int].pid == 0x20 + control[k] as int / 0x100_0000
                    % 32
                &&& !streams[j as int].forced
                &&& attrs[k].lang is None ==> streams[j as int].language == "und"@
                &&& attrs[k].lang matches Some(code) ==> streams[j as int].language
                    == ifo::language_of(code)
            }
        }),
    decreases n,
{
    lemma_subtitle_count(attrs, control, widescreen, n - 1);
    dvd::control_words_say_what_their_bits_say(0, control[k]);
    if k < n - 1 {
        present_subpictures_are_listed(attrs, control, widescreen, k, n - 1);
    }
}

proof fn lemma_subtitle_count(
    attrs: Seq<ifo::SubpAttrModel>,
    control: Seq<u32>,
    widescreen: bool,
    n: int,
)
    ensures
        subtitle_streams_of(attrs, control, widescreen, n).len() <= if n <= 0 {
            0
        } else {
            n
        },
    decreases n,
{
    if n > 0 {
        lemma_subtitle_count(attrs, control, widescreen, n - 1);
    }
}

/// The place of a title set is that of the first one with its number; where none has
/// it, it lies behind the last.
pub proof fn title_sets_are_found(sets: Seq<(u8, VtsRead)>, nr: u8)
    ensures
        0 <= set_position(sets, nr) <= sets.len(),
        set_position(sets, nr) < sets.len() ==> sets[set_position(sets, nr)].0 == nr,
        forall|i: int| 0 <= i < set_position(sets, nr) ==> (#[trigger] sets[i]).0 != nr,
    decreases sets.len(),
{
    if sets.len() > 0 && sets[0].0 != nr {
        let rest = sets.skip(1);
        title_sets_are_found(rest, nr);
        assert forall|i: int| 0 <= i < set_position(sets, nr) implies (#[trigger] sets[i]).0
            != nr by {
            if i > 0 {
                assert(rest[i - 1] == sets[i]);
            }
        }
        if set_position(sets, nr) < sets.len() {
            assert(rest[set_position(rest, nr)] == sets[set_position(sets, nr)]);
        }
    }
}

/// A title whose set was read, and whose first chapter names a chain of the set, is
/// analysed from that chain; no other title is.
pub proof fn readable_titles_are_analysed(
    vmg: Seq<VmgTitle>,
    sets: Seq<(u8, VtsRead)>,
    i: int,
    n: int,
)
    requires
        0 <= i < n <= vmg.len(),
    ensures
        ({
            let k = set_position(sets, vmg[i].title_set_nr);
            let titles = playable_titles(vmg, sets, n);
            let at = playable_titles(vmg, sets, i).len();
            &&& k < sets.len() && sets[k].1 is Read ==> {
                let vts = sets[k].1->Read_0.deep_view();
                let row = vmg[i].vts_ttn - 1;
                let named = 0 <= row < vts.title_ptts.len() && vts.title_ptts[row].len() > 0 && 1
                    <= vts.title_ptts[row][0].0 <= vts.pgcs.len();
                &&& named ==> at < titles.len() && titles[at as int] == described(
                    vmg[i],
                    vts,
                    vts.pgcs[vts.title_ptts[row][0].0 - 1],
                )
                &&& !named ==> playable_titles(vmg, sets, i + 1) == playable_titles(vmg, sets, i)
            }
            &&& k >= sets.len() || sets[k].1 is Failed ==> playable_titles(vmg, sets, i + 1)
                == playable_titles(vmg, sets, i)
        }),
    decreases n,
{
    if i < n - 1 {
        readable_titles_are_analysed(vmg, sets, i, n - 1);
    }
}

/// Each title whose set could not be read gives a warning with the reason, in the
/// order of the titles; no other title does.
pub proof fn unreadable_titles_are_named(
    vmg: Seq<VmgTitle>,
    sets: Seq<(u8, VtsRead)>,
    i: int,
    n: int,
)
    requires
        0 <= i < n <= vmg.len(),
    ensures
        ({
            let k = set_position(sets, vmg[i].title_set_nr);
            let at = skip_warnings(vmg, sets, i).len();
            let warnings = skip_warnings(vmg, sets, n);
            &&& k < sets.len() && sets[k].1 is Failed ==> at < warnings.len()
                && warnings[at as int] == "Warning: skipping title "@ + text::decimal(
                vmg[i].title_nr as nat,
            ) + " (VTS "@ + text::decimal(vmg[i].title_set_nr as nat) + " unreadable: "@
                + sets[k].1->Failed_0@ + ")"@
            &&& k >= sets.len() || sets[k].1 is Read ==> skip_warnings(vmg, sets, i + 1)
                == skip_warnings(vmg, sets, i)
        }),
    decreases n,
{
    if i < n - 1 {
        unreadable_titles_are_named(vmg, sets, i, n - 1);
    }
}

/// A DVD without titles, or without one that can be played, is refused; of any other
/// the longest title is the main one.
pub proof fn playable_discs_are_analysed(vmg: Seq<VmgTitle>, sets: Seq<(u8, VtsRead)>, i: int)
    ensures
        vmg.len() == 0 ==> dvd_analysis(vmg, sets) == Err::<
            analysis::TitleAnalysisModel,
            Seq<char>,
        >("DVD has no titles"@),
        vmg.len() > 0 && playable_titles(vmg, sets, vmg.len() as int).len() == 0 ==> dvd_analysis(
            vmg,
            sets,
        ) == Err::<analysis::TitleAnalysisModel, Seq<char>>("No playable titles found on DVD"@),
        ({
            let titles = playable_titles(vmg, sets, vmg.len() as int);
            0 <= i < titles.len() ==> {
                &&& dvd_analysis(vmg, sets) matches Ok(a)
                &&& a.format is Dvd
                &&& a.titles.len() == titles.len()
                &&& exists|k: int|
                    0 <= k < titles.len() && (#[trigger] titles[k]).index == a.main_title_idx
                        && titles[k].duration_secs >= titles[i].duration_secs
            }
        }),
{
    let titles = playable_titles(vmg, sets, vmg.len() as int);
    if 0 <= i < titles.len() {
        assert(vmg.len() > 0);
        let n = titles.len() as int;
        main_title_is_longest(titles, n, i);
        let k = longest(titles, n);
        analysis::ranking_sorts(analysis::scored_titles(titles, titles[k].index));
    }
}

} // verus!
