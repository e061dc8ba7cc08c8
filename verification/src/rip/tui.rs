//! The dialogue with the user: what is shown, what is preselected, and what an
//! answer means.
use vstd::prelude::*;

use super::analysis;
use super::analysis::{
    AnalysedTitle, AudioStreamInfo, DiscType, SubtitleStreamInfo, TitleAnalysis,
};
use super::jellyfin;
use crate::config::Config;
use crate::tmdb::{TmdbMovie, TmdbShow, TmdbUrlType};
use crate::{config, list, text, tmdb};

verus! {

#[derive(Debug)]
pub enum MediaChoice {
    Movie(MovieChoice),
    Show(ShowChoice),
}

#[derive(Debug)]
pub struct MovieChoice {
    pub title_idx: u32,
    pub tmdb: TmdbMovie,
    pub audio_selections: Vec<AudioSelection>,
    pub subtitle_indices: Vec<usize>,
}

/// What a `MovieChoice` says.
pub ghost struct MovieChoiceModel {
    pub title_idx: u32,
    pub tmdb: tmdb::TmdbMovieModel,
    pub audio_selections: Seq<AudioSelection>,
    pub subtitle_indices: Seq<usize>,
}

impl DeepView for MovieChoice {
    type V = MovieChoiceModel;

    open spec fn deep_view(&self) -> MovieChoiceModel {
        MovieChoiceModel {
            title_idx: self.title_idx,
            tmdb: self.tmdb.deep_view(),
            audio_selections: self.audio_selections@,
            subtitle_indices: self.subtitle_indices@,
        }
    }
}

#[derive(Debug)]
pub struct ShowChoice {
    pub title_indices: Vec<u32>,
    pub tmdb: TmdbShow,
    pub season: u32,
    pub start_episode: u32,
    pub audio_selections: Vec<AudioSelection>,
    pub subtitle_indices: Vec<usize>,
}

/// What a `ShowChoice` says.
pub ghost struct ShowChoiceModel {
    pub title_indices: Seq<u32>,
    pub tmdb: tmdb::TmdbShowModel,
    pub season: u32,
    pub start_episode: u32,
    pub audio_selections: Seq<AudioSelection>,
    pub subtitle_indices: Seq<usize>,
}

impl DeepView for ShowChoice {
    type V = ShowChoiceModel;

    open spec fn deep_view(&self) -> ShowChoiceModel {
        ShowChoiceModel {
            title_indices: self.title_indices@,
            tmdb: self.tmdb.deep_view(),
            season: self.season,
            start_episode: self.start_episode,
            audio_selections: self.audio_selections@,
            subtitle_indices: self.subtitle_indices@,
        }
    }
}

#[derive(Debug, Clone, Copy, PartialEq, Eq, Structural)]
pub struct AudioSelection {
    pub stream_index_in_clip: usize,
    pub action: AudioSelectionAction,
}

#[derive(Debug, Clone, Copy, PartialEq, Eq, Structural)]
pub enum AudioSelectionAction {
    Copy,
    EncodeAac,
}

/// The name of a coding type.
pub open spec fn coding_name(ct: u8) -> Seq<char> {
    if ct == 0x01 {
        "MPEG-1"@
    } else if ct == 0x02 {
        "MPEG-2"@
    } else if ct == 0x03 {
        "MPEG-2 Audio"@
    } else if ct == 0x80 {
        "LPCM"@
    } else if ct == 0x81 {
        "AC-3"@
    } else if ct == 0x82 {
        "DTS"@
    } else if ct == 0x83 {
        "TrueHD"@
    } else if ct == 0x84 {
        "EAC-3"@
    } else if ct == 0x85 {
        "DTS-HD"@
    } else if ct == 0x86 {
        "DTS-HD MA"@
    } else if ct == 0xA1 {
        "EAC-3 2nd"@
    } else if ct == 0xA2 {
        "DTS-HD 2nd"@
    } else {
        "Unknown"@
    }
}

/// The name of a coding type.
pub fn format_coding_type(ct: u8) -> (r: &'static str)
    ensures
        r@ == coding_name(ct),
{
    match ct {
        0x01 => "MPEG-1",
        0x02 => "MPEG-2",
        0x03 => "MPEG-2 Audio",
        0x80 => "LPCM",
        0x81 => "AC-3",
        0x82 => "DTS",
        0x83 => "TrueHD",
        0x84 => "EAC-3",
        0x85 => "DTS-HD",
        0x86 => "DTS-HD MA",
        0xA1 => "EAC-3 2nd",
        0xA2 => "DTS-HD 2nd",
        _ => "Unknown",
    }
}

// --- the analysis ---

/// The common part of the lines about a title.
pub open spec fn title_text(
    head: Seq<char>,
    t: analysis::AnalysedTitleModel,
    chapters: Seq<char>,
) -> Seq<char> {
    head + text::padded(text::decimal(t.index as nat), 3, ' ') + "  "@ + text::clock(
        t.duration_secs as nat,
    ) + chapters + text::decimal(t.chapter_count as nat) + "  audio="@ + text::decimal(
        t.audio_streams.len(),
    ) + "  subs="@ + text::decimal(t.subtitle_streams.len())
}

fn describe_title(head: &str, t: &AnalysedTitle, chapters: &str) -> (r: String)
    ensures
        r@ == title_text(head@, t.deep_view(), chapters@),
{
    let mut line = head.to_owned();
    text::push_padded_decimal(&mut line, t.index as u64, 3, ' ');
    line.append("  ");
    text::push_clock(&mut line, t.duration_secs);
    line.append(chapters);
    text::push_decimal(&mut line, t.chapter_count as u64);
    line.append("  audio=");
    text::push_decimal(&mut line, t.audio_streams.len() as u64);
    line.append("  subs=");
    text::push_decimal(&mut line, t.subtitle_streams.len() as u64);
    line
}

/// The line about a title in the overview.
pub open spec fn overview_line(t: analysis::AnalysedTitleModel, main_title: u32) -> Seq<char> {
    title_text("  Title "@, t, "  chapters="@) + "  score="@ + text::signed_decimal(t.score as int)
        + if t.index == main_title {
        " [MAIN]"@
    } else {
        ""@
    }
}

/// The lines about the titles in the overview.
pub open spec fn overview_lines(
    titles: Seq<analysis::AnalysedTitleModel>,
    main_title: u32,
) -> Seq<Seq<char>> {
    Seq::new(titles.len(), |i: int| overview_line(titles[i], main_title))
}

/// Numbers with commas between them.
pub open spec fn number_list(numbers: Seq<u32>) -> Seq<char>
    decreases numbers.len(),
{
    if numbers.len() == 0 {
        Seq::empty()
    } else if numbers.len() == 1 {
        text::decimal(numbers[0] as nat)
    } else {
        number_list(numbers.drop_last()) + ", "@ + text::decimal(numbers.last() as nat)
    }
}

fn list_numbers(numbers: &Vec<u32>) -> (r: String)
    ensures
        r@ == number_list(numbers@),
{
    let mut r = String::new();
    let mut i: usize = 0;
    while i < numbers.len()
        invariant
            i <= numbers.len(),
            r@ == number_list(numbers@.take(i as int)),
        decreases numbers.len() - i,
    {
        if i > 0 {
            r.append(", ");
        }
        text::push_decimal(&mut r, numbers[i] as u64);
        assert(numbers@.take(i + 1).drop_last() =~= numbers@.take(i as int));
        assert(r@ =~= number_list(numbers@.take(i + 1)));
        i = i + 1;
    }
    assert(numbers@.take(i as int) =~= numbers@);
    r
}

/// The line about what the disc looks like.
pub open spec fn detected_line(detected: analysis::DiscTypeModel) -> Seq<char> {
    match detected {
        analysis::DiscTypeModel::Movie { title_idx } => "Detected: Movie (title "@ + text::decimal(
            title_idx as nat,
        ) + ")"@,
        analysis::DiscTypeModel::Show { episode_indices } => "Detected: TV Show ("@ + text::decimal(
            episode_indices.len(),
        ) + " episodes: ["@ + number_list(episode_indices) + "])"@,
    }
}

/// The overview of a disc.
pub open spec fn overview(a: analysis::TitleAnalysisModel) -> Seq<Seq<char>> {
    seq![
        Seq::<char>::empty(),
        "=== Blu-ray Disc Analysis ==="@,
        Seq::<char>::empty(),
        "Main title: "@ + text::decimal(a.main_title_idx as nat),
        "Found "@ + text::decimal(a.titles.len()) + " titles:"@,
        Seq::<char>::empty(),
    ] + overview_lines(a.titles, a.main_title_idx) + seq![
        Seq::<char>::empty(),
        detected_line(a.detected_type),
    ]
}

/// The overview of a disc.
pub fn disc_overview(found: &TitleAnalysis) -> (r: Vec<String>)
    ensures
        r.deep_view() == overview(found.deep_view()),
{
    let ghost model = found.deep_view();
    let mut lines: Vec<String> = list::single(String::new());
    list::push(&mut lines, "=== Blu-ray Disc Analysis ===".to_owned());
    list::push(&mut lines, String::new());
    let mut line = "Main title: ".to_owned();
    text::push_decimal(&mut line, found.main_title_idx as u64);
    list::push(&mut lines, line);
    let mut line = "Found ".to_owned();
    text::push_decimal(&mut line, found.titles.len() as u64);
    line.append(" titles:");
    list::push(&mut lines, line);
    list::push(&mut lines, String::new());
    let ghost head = lines.deep_view();
    let ghost entries = overview_lines(model.titles, model.main_title_idx);
    let mut i: usize = 0;
    assert(head =~= head + entries.take(0));
    while i < found.titles.len()
        invariant
            i <= found.titles.len(),
            model == found.deep_view(),
            entries == overview_lines(model.titles, model.main_title_idx),
            lines.deep_view() == head + entries.take(i as int),
        decreases found.titles.len() - i,
    {
        let t = &found.titles[i];
        assert(model.titles[i as int] == t.deep_view());
        let mut line = describe_title("  Title ", t, "  chapters=");
        line.append("  score=");
        text::push_signed(&mut line, t.score);
        if t.index == found.main_title_idx {
            line.append(" [MAIN]");
        } else {
            line.append("");
        }
        list::push(&mut lines, line);
        assert(lines.deep_view() =~= head + entries.take(i + 1));
        i = i + 1;
    }
    assert(entries.take(i as int) =~= entries);
    list::push(&mut lines, String::new());
    let line: String = match &found.detected_type {
        DiscType::Movie { title_idx } => {
            let mut line = "Detected: Movie (title ".to_owned();
            text::push_decimal(&mut line, *title_idx as u64);
            line.append(")");
            line
        },
        DiscType::Show { episode_indices } => {
            let mut line = "Detected: TV Show (".to_owned();
            text::push_decimal(&mut line, episode_indices.len() as u64);
            line.append(" episodes: [");
            line.append(list_numbers(episode_indices).as_str());
            line.append("])");
            line
        },
    };
    list::push(&mut lines, line);
    assert(lines.deep_view() =~= overview(model));
    lines
}

/// The content type that is preselected: 0 for a movie, 1 for a show.
pub fn default_content_type(detected: &DiscType) -> (r: usize)
    ensures
        r == if detected is Show {
            1int
        } else {
            0
        },
{
    match detected {
        DiscType::Movie { .. } => 0,
        DiscType::Show { .. } => 1,
    }
}

/// What is needed before anything can be looked up.
pub fn required_token(config: &Config) -> (r: Result<String, String>)
    ensures
        match config.tmdb_token {
            Some(token) => r matches Ok(t) && t@ == token@,
            None => r matches Err(message) && message@
                == "TMDB token not configured. Run `config init` first."@,
        },
{
    match &config.tmdb_token {
        Some(token) => Ok(token.clone()),
        None => Err("TMDB token not configured. Run `config init` first.".to_owned()),
    }
}

// --- movies ---

/// The titles that a movie is chosen from.
pub open spec fn movie_labels(titles: Seq<analysis::AnalysedTitleModel>) -> Seq<Seq<char>> {
    Seq::new(
        titles.len(),
        |i: int|
            title_text("Title "@, titles[i], "  ch="@) + "  score="@ + text::signed_decimal(
                titles[i].score as int,
            ),
    )
}

/// The titles that a movie is chosen from.
pub fn movie_title_labels(titles: &Vec<AnalysedTitle>) -> (r: Vec<String>)
    ensures
        r.deep_view() == movie_labels(titles.deep_view()),
{
    let ghost models = titles.deep_view();
    let ghost all = movie_labels(models);
    let mut labels: Vec<String> = list::empty();
    let mut i: usize = 0;
    while i < titles.len()
        invariant
            i <= titles.len(),
            models == titles.deep_view(),
            all == movie_labels(models),
            labels.deep_view() == all.take(i as int),
        decreases titles.len() - i,
    {
        assert(models[i as int] == titles[i as int].deep_view());
        let mut label = describe_title("Title ", &titles[i], "  ch=");
        label.append("  score=");
        text::push_signed(&mut label, titles[i].score);
        list::push(&mut labels, label);
        assert(labels.deep_view() =~= all.take(i + 1));
        i = i + 1;
    }
    assert(all.take(i as int) =~= all);
    labels
}

/// The place of the first title with an index, as many as there are where no
/// title has it.
pub open spec fn title_place(titles: Seq<analysis::AnalysedTitleModel>, index: u32) -> int
    decreases titles.len(),
{
    if titles.len() == 0 || titles[0].index == index {
        0
    } else {
        1 + title_place(titles.skip(1), index)
    }
}

proof fn lemma_title_place(titles: Seq<analysis::AnalysedTitleModel>, index: u32, n: int)
    requires
        0 <= n <= titles.len(),
        forall|i: int| 0 <= i < n ==> (#[trigger] titles[i]).index != index,
        n < titles.len() ==> titles[n].index == index,
    ensures
        title_place(titles, index) == n,
    decreases titles.len(),
{
    if n > 0 {
        let rest = titles.skip(1);
        assert forall|i: int| 0 <= i < n - 1 implies (#[trigger] rest[i]).index != index by {
            assert(rest[i] == titles[i + 1]);
        }
        lemma_title_place(rest, index, n - 1);
    }
}

/// The place of the first title with an index.
pub fn find_title(titles: &Vec<AnalysedTitle>, index: u32) -> (r: Option<usize>)
    ensures
        match r {
            Some(i) => i < titles.len() && i == title_place(titles.deep_view(), index)
                && titles[i as int].index == index,
            None => title_place(titles.deep_view(), index) == titles.len(),
        },
{
    let ghost models = titles.deep_view();
    let mut i: usize = 0;
    while i < titles.len()
        invariant
            i <= titles.len(),
            models == titles.deep_view(),
            forall|k: int| 0 <= k < i ==> (#[trigger] models[k]).index != index,
        decreases titles.len() - i,
    {
        assert(models[i as int] == titles[i as int].deep_view());
        if titles[i].index == index {
            proof {
                lemma_title_place(models, index, i as int);
            }
            return Some(i);
        }
        i = i + 1;
    }
    proof {
        lemma_title_place(models, index, i as int);
    }
    None
}

/// The title that is preselected: that of the detected movie, else the first.
pub open spec fn preselected(a: analysis::TitleAnalysisModel) -> int {
    match a.detected_type {
        analysis::DiscTypeModel::Movie { title_idx } => if title_place(a.titles, title_idx)
            < a.titles.len() {
            title_place(a.titles, title_idx)
        } else {
            0
        },
        analysis::DiscTypeModel::Show { .. } => 0,
    }
}

/// The title that is preselected.
pub fn default_title(found: &TitleAnalysis) -> (r: usize)
    ensures
        r == preselected(found.deep_view()),
        found.titles.len() > 0 ==> r < found.titles.len(),
{
    match &found.detected_type {
        DiscType::Movie { title_idx } => match find_title(&found.titles, *title_idx) {
            Some(i) => i,
            None => 0,
        },
        DiscType::Show { .. } => 0,
    }
}

/// The choice of a movie.
pub fn movie_choice(
    selected: &AnalysedTitle,
    movie: TmdbMovie,
    audio_selections: Vec<AudioSelection>,
    subtitle_indices: Vec<usize>,
) -> (r: MediaChoice)
    ensures
        r matches MediaChoice::Movie(choice) && choice.deep_view() == (MovieChoiceModel {
            title_idx: selected.index,
            tmdb: movie.deep_view(),
            audio_selections: audio_selections@,
            subtitle_indices: subtitle_indices@,
        }),
{
    MediaChoice::Movie(
        MovieChoice {
            title_idx: selected.index,
            tmdb: movie,
            audio_selections,
            subtitle_indices,
        },
    )
}

// --- shows ---

/// The titles that episodes are chosen from.
pub open spec fn show_labels(titles: Seq<analysis::AnalysedTitleModel>) -> Seq<Seq<char>> {
    Seq::new(titles.len(), |i: int| title_text("Title "@, titles[i], "  ch="@))
}

/// The titles that episodes are chosen from.
pub fn show_title_labels(titles: &Vec<AnalysedTitle>) -> (r: Vec<String>)
    ensures
        r.deep_view() == show_labels(titles.deep_view()),
{
    let ghost models = titles.deep_view();
    let ghost all = show_labels(models);
    let mut labels: Vec<String> = list::empty();
    let mut i: usize = 0;
    while i < titles.len()
        invariant
            i <= titles.len(),
            models == titles.deep_view(),
            all == show_labels(models),
            labels.deep_view() == all.take(i as int),
        decreases titles.len() - i,
    {
        assert(models[i as int] == titles[i as int].deep_view());
        list::push(&mut labels, describe_title("Title ", &titles[i], "  ch="));
        assert(labels.deep_view() =~= all.take(i + 1));
        i = i + 1;
    }
    assert(all.take(i as int) =~= all);
    labels
}

/// Is a title one of the detected episodes?
pub open spec fn is_episode(detected: analysis::DiscTypeModel, index: u32) -> bool {
    detected matches analysis::DiscTypeModel::Show { episode_indices }
        && episode_indices.contains(index)
}

/// The titles that are preselected: the detected episodes.
pub fn default_episodes(found: &TitleAnalysis) -> (r: Vec<bool>)
    ensures
        r.len() == found.titles.len(),
        forall|i: int|
            0 <= i < r.len() ==> #[trigger] r[i] == is_episode(
                found.detected_type.deep_view(),
                found.titles[i].index,
            ),
{
    let mut defaults: Vec<bool> = Vec::new();
    let mut i: usize = 0;
    while i < found.titles.len()
        invariant
            i <= found.titles.len(),
            defaults.len() == i,
            forall|k: int|
                0 <= k < i ==> #[trigger] defaults[k] == is_episode(
                    found.detected_type.deep_view(),
                    found.titles[k].index,
                ),
        decreases found.titles.len() - i,
    {
        let chosen: bool = match &found.detected_type {
            DiscType::Movie { .. } => false,
            DiscType::Show { episode_indices } => holds(episode_indices, found.titles[i].index),
        };
        defaults.push(chosen);
        i = i + 1;
    }
    defaults
}

fn holds(numbers: &Vec<u32>, n: u32) -> (r: bool)
    ensures
        r == numbers@.contains(n),
{
    let mut i: usize = 0;
    while i < numbers.len()
        invariant
            i <= numbers.len(),
            forall|k: int| 0 <= k < i ==> numbers@[k] != n,
        decreases numbers.len() - i,
    {
        if numbers[i] == n {
            assert(numbers@.contains(n));
            return true;
        }
        i = i + 1;
    }
    false
}

/// The indices of the selected titles, or a complaint where none is selected.
pub fn selected_titles(found: &TitleAnalysis, selected: &Vec<usize>) -> (r: Result<
    Vec<u32>,
    String,
>)
    requires
        forall|i: int| 0 <= i < selected.len() ==> #[trigger] selected[i] < found.titles.len(),
    ensures
        match r {
            Ok(indices) => selected.len() > 0 && indices@ == Seq::new(
                selected@.len(),
                |i: int| found.titles[selected[i] as int].index,
            ),
            Err(message) => selected.len() == 0 && message@ == "No titles selected"@,
        },
{
    if selected.len() == 0 {
        return Err("No titles selected".to_owned());
    }
    let ghost all = Seq::new(
        selected@.len(),
        |i: int| found.titles[selected[i] as int].index,
    );
    let mut indices: Vec<u32> = Vec::new();
    let mut i: usize = 0;
    while i < selected.len()
        invariant
            i <= selected.len(),
            forall|k: int| 0 <= k < selected.len() ==> #[trigger] selected[k] < found.titles.len(),
            all == Seq::new(selected@.len(), |k: int| found.titles[selected[k] as int].index),
            indices@ == all.take(i as int),
        decreases selected.len() - i,
    {
        assert(selected[i as int] < found.titles.len());
        indices.push(found.titles[selected[i]].index);
        assert(indices@ =~= all.take(i + 1));
        i = i + 1;
    }
    assert(all.take(i as int) =~= all);
    Ok(indices)
}

/// The seasons to choose from.
pub open spec fn season_labels(show: tmdb::TmdbShowModel) -> Seq<Seq<char>> {
    Seq::new(show.seasons.len(), |i: int| show.seasons[i].label_text())
}

/// The seasons to choose from, or a complaint where there are none.
pub fn season_choices(show: &TmdbShow) -> (r: Result<Vec<String>, String>)
    ensures
        match r {
            Ok(labels) => show.seasons.len() > 0 && labels.deep_view() == season_labels(
                show.deep_view(),
            ),
            Err(message) => show.seasons.len() == 0 && message@
                == "No seasons found for this show"@,
        },
{
    if show.seasons.len() == 0 {
        return Err("No seasons found for this show".to_owned());
    }
    let ghost model = show.deep_view();
    let ghost all = season_labels(model);
    let mut labels: Vec<String> = list::empty();
    let mut i: usize = 0;
    while i < show.seasons.len()
        invariant
            i <= show.seasons.len(),
            model == show.deep_view(),
            all == season_labels(model),
            labels.deep_view() == all.take(i as int),
        decreases show.seasons.len() - i,
    {
        assert(model.seasons[i as int] == show.seasons[i as int].deep_view());
        list::push(&mut labels, show.seasons[i].label());
        assert(labels.deep_view() =~= all.take(i + 1));
        i = i + 1;
    }
    assert(all.take(i as int) =~= all);
    Ok(labels)
}

/// The directory whose files tell which episode comes next, none where no show
/// directory is configured.
pub fn season_directory(config: &Config, show: &TmdbShow, season: u32) -> (r: Option<String>)
    ensures
        match config.show_dir {
            Some(dir) => r matches Some(path) && path@ == jellyfin::season_location(
                dir@,
                show.name@,
                show.year,
                show.id,
                season,
            ),
            None => r is None,
        },
{
    match &config.show_dir {
        Some(dir) => Some(
            jellyfin::season_dir(dir.as_str(), show.name.as_str(), show.year, show.id, season),
        ),
        None => None,
    }
}

/// The episode number that is suggested: the one behind those in the season's
/// directory, 1 where there is no such directory to look into.
pub fn suggested_episode(names: &Option<Vec<String>>) -> (r: u32)
    requires
        names matches Some(names) ==> jellyfin::highest_in(names.deep_view()) < u32::MAX,
    ensures
        r == match *names {
            Some(names) => jellyfin::highest_in(names.deep_view()) + 1,
            None => 1,
        },
{
    match names {
        Some(names) => jellyfin::guess_next_episode(names),
        None => 1,
    }
}

/// The choice of a show's episodes.
pub fn show_choice(
    title_indices: Vec<u32>,
    show: TmdbShow,
    season_choice: usize,
    start_episode: u32,
    audio_selections: Vec<AudioSelection>,
    subtitle_indices: Vec<usize>,
) -> (r: MediaChoice)
    requires
        season_choice < show.seasons.len(),
    ensures
        r matches MediaChoice::Show(choice) && choice.deep_view() == (ShowChoiceModel {
            title_indices: title_indices@,
            tmdb: show.deep_view(),
            season: show.seasons[season_choice as int].season_number,
            start_episode,
            audio_selections: audio_selections@,
            subtitle_indices: subtitle_indices@,
        }),
{
    let season: u32 = show.seasons[season_choice].season_number;
    MediaChoice::Show(
        ShowChoice {
            title_indices,
            tmdb: show,
            season,
            start_episode,
            audio_selections,
            subtitle_indices,
        },
    )
}

// --- lookups ---

/// How an input leads to a movie or a show.
#[derive(Debug, Clone, Copy, PartialEq, Eq, Structural)]
pub enum Lookup {
    /// By its number.
    Fetch(u64),
    /// By a search for the input.
    Search,
}

/// An address of the kind that is looked for is followed; anything else is
/// searched for.
pub open spec fn lookup_of(input: Seq<char>, kind: TmdbUrlType) -> Lookup {
    match tmdb::url_target(input) {
        Some((found, id)) => if found == kind {
            Lookup::Fetch(id as u64)
        } else {
            Lookup::Search
        },
        None => Lookup::Search,
    }
}

/// How an input leads to a movie or a show.
pub fn plan_lookup(input: &str, kind: TmdbUrlType) -> (r: Lookup)
    ensures
        r == lookup_of(input@, kind),
{
    match tmdb::parse_tmdb_url(input) {
        Some((found, id)) => if found == kind {
            Lookup::Fetch(id)
        } else {
            Lookup::Search
        },
        None => Lookup::Search,
    }
}

/// The movies to choose from.
pub open spec fn movie_result_labels(results: Seq<tmdb::TmdbMovieModel>) -> Seq<Seq<char>> {
    Seq::new(results.len(), |i: int| tmdb::dated(results[i].title, results[i].year))
}

/// The movies to choose from, or a complaint where there are none.
pub fn movie_choices(results: &Vec<TmdbMovie>) -> (r: Result<Vec<String>, String>)
    ensures
        match r {
            Ok(labels) => results.len() > 0 && labels.deep_view() == movie_result_labels(
                results.deep_view(),
            ),
            Err(message) => results.len() == 0 && message@ == "No results found"@,
        },
{
    if results.len() == 0 {
        return Err("No results found".to_owned());
    }
    let ghost models = results.deep_view();
    let ghost all = movie_result_labels(models);
    let mut labels: Vec<String> = list::empty();
    let mut i: usize = 0;
    while i < results.len()
        invariant
            i <= results.len(),
            models == results.deep_view(),
            all == movie_result_labels(models),
            labels.deep_view() == all.take(i as int),
        decreases results.len() - i,
    {
        assert(models[i as int] == results[i as int].deep_view());
        list::push(&mut labels, results[i].label());
        assert(labels.deep_view() =~= all.take(i + 1));
        i = i + 1;
    }
    assert(all.take(i as int) =~= all);
    Ok(labels)
}

/// The shows to choose from.
pub open spec fn show_result_labels(results: Seq<tmdb::TmdbShowModel>) -> Seq<Seq<char>> {
    Seq::new(results.len(), |i: int| tmdb::dated(results[i].name, results[i].year))
}

/// The shows to choose from, or a complaint where there are none.
pub fn show_choices(results: &Vec<TmdbShow>) -> (r: Result<Vec<String>, String>)
    ensures
        match r {
            Ok(labels) => results.len() > 0 && labels.deep_view() == show_result_labels(
                results.deep_view(),
            ),
            Err(message) => results.len() == 0 && message@ == "No results found"@,
        },
{
    if results.len() == 0 {
        return Err("No results found".to_owned());
    }
    let ghost models = results.deep_view();
    let ghost all = show_result_labels(models);
    let mut labels: Vec<String> = list::empty();
    let mut i: usize = 0;
    while i < results.len()
        invariant
            i <= results.len(),
            models == results.deep_view(),
            all == show_result_labels(models),
            labels.deep_view() == all.take(i as int),
        decreases results.len() - i,
    {
        assert(models[i as int] == results[i as int].deep_view());
        list::push(&mut labels, results[i].label());
        assert(labels.deep_view() =~= all.take(i + 1));
        i = i + 1;
    }
    assert(all.take(i as int) =~= all);
    Ok(labels)
}

// --- streams ---

/// Is a language preferred? Without a preference every language is.
pub open spec fn preferred(languages: Seq<Seq<char>>, language: Seq<char>) -> bool {
    languages.len() == 0 || languages.contains(language)
}

fn is_preferred(languages: &Vec<String>, language: &String) -> (r: bool)
    ensures
        r == preferred(languages.deep_view(), language@),
{
    languages.len() == 0 || text::contains_text(languages, language.as_str())
}

/// The audio streams to choose from.
pub open spec fn audio_labels(streams: Seq<analysis::AudioStreamModel>) -> Seq<Seq<char>> {
    Seq::new(
        streams.len(),
        |i: int|
            "Audio "@ + text::decimal(i as nat) + "  "@ + streams[i].language + "  "@
                + coding_name(streams[i].coding_type),
    )
}

/// The audio streams to choose from.
pub fn audio_stream_labels(streams: &Vec<AudioStreamInfo>) -> (r: Vec<String>)
    ensures
        r.deep_view() == audio_labels(streams.deep_view()),
{
    let ghost models = streams.deep_view();
    let ghost all = audio_labels(models);
    let mut labels: Vec<String> = list::empty();
    let mut i: usize = 0;
    while i < streams.len()
        invariant
            i <= streams.len(),
            models == streams.deep_view(),
            all == audio_labels(models),
            labels.deep_view() == all.take(i as int),
        decreases streams.len() - i,
    {
        assert(models[i as int] == streams[i as int].deep_view());
        let mut label = "Audio ".to_owned();
        text::push_decimal(&mut label, i as u64);
        label.append("  ");
        label.append(streams[i].language.as_str());
        label.append("  ");
        label.append(format_coding_type(streams[i].coding_type));
        list::push(&mut labels, label);
        assert(labels.deep_view() =~= all.take(i + 1));
        i = i + 1;
    }
    assert(all.take(i as int) =~= all);
    labels
}

/// The audio streams that are preselected: those in preferred languages.
pub fn default_audio_streams(streams: &Vec<AudioStreamInfo>, languages: &Vec<String>) -> (r: Vec<
    bool,
>)
    ensures
        r.len() == streams.len(),
        forall|i: int|
            0 <= i < r.len() ==> #[trigger] r[i] == preferred(
                languages.deep_view(),
                streams[i].language@,
            ),
{
    let mut defaults: Vec<bool> = Vec::new();
    let mut i: usize = 0;
    while i < streams.len()
        invariant
            i <= streams.len(),
            defaults.len() == i,
            forall|k: int|
                0 <= k < i ==> #[trigger] defaults[k] == preferred(
                    languages.deep_view(),
                    streams[k].language@,
                ),
        decreases streams.len() - i,
    {
        defaults.push(is_preferred(languages, &streams[i].language));
        i = i + 1;
    }
    defaults
}

/// The question what to do with an audio stream.
pub fn audio_action_prompt(idx: usize, stream: &AudioStreamInfo) -> (r: String)
    ensures
        r@ == "Action for audio "@ + text::decimal(idx as nat) + " ("@ + stream.language@ + ")"@,
{
    let mut prompt = "Action for audio ".to_owned();
    text::push_decimal(&mut prompt, idx as u64);
    prompt.append(" (");
    prompt.append(stream.language.as_str());
    prompt.append(")");
    prompt
}

/// What the answer to that question means: the first choice encodes, the second
/// copies.
pub fn audio_selection(stream: &AudioStreamInfo, action_choice: usize) -> (r: AudioSelection)
    ensures
        r.stream_index_in_clip == stream.index_in_clip,
        r.action == if action_choice == 0 {
            AudioSelectionAction::EncodeAac
        } else {
            AudioSelectionAction::Copy
        },
{
    AudioSelection {
        stream_index_in_clip: stream.index_in_clip,
        action: if action_choice == 0 {
            AudioSelectionAction::EncodeAac
        } else {
            AudioSelectionAction::Copy
        },
    }
}

/// The subtitle streams to choose from.
pub open spec fn subtitle_labels(streams: Seq<analysis::SubtitleStreamModel>) -> Seq<Seq<char>> {
    Seq::new(
        streams.len(),
        |i: int| "Subtitle "@ + text::decimal(i as nat) + "  "@ + streams[i].language,
    )
}

/// The subtitle streams to choose from.
pub fn subtitle_stream_labels(streams: &Vec<SubtitleStreamInfo>) -> (r: Vec<String>)
    ensures
        r.deep_view() == subtitle_labels(streams.deep_view()),
{
    let ghost models = streams.deep_view();
    let ghost all = subtitle_labels(models);
    let mut labels: Vec<String> = list::empty();
    let mut i: usize = 0;
    while i < streams.len()
        invariant
            i <= streams.len(),
            models == streams.deep_view(),
            all == subtitle_labels(models),
            labels.deep_view() == all.take(i as int),
        decreases streams.len() - i,
    {
        assert(models[i as int] == streams[i as int].deep_view());
        let mut label = "Subtitle ".to_owned();
        text::push_decimal(&mut label, i as u64);
        label.append("  ");
        label.append(streams[i].language.as_str());
        list::push(&mut labels, label);
        assert(labels.deep_view() =~= all.take(i + 1));
        i = i + 1;
    }
    assert(all.take(i as int) =~= all);
    labels
}

/// The subtitle streams that are preselected: those in preferred languages.
pub fn default_subtitle_streams(
    streams: &Vec<SubtitleStreamInfo>,
    languages: &Vec<String>,
) -> (r: Vec<bool>)
    ensures
        r.len() == streams.len(),
        forall|i: int|
            0 <= i < r.len() ==> #[trigger] r[i] == preferred(
                languages.deep_view(),
                streams[i].language@,
            ),
{
    let mut defaults: Vec<bool> = Vec::new();
    let mut i: usize = 0;
    while i < streams.len()
        invariant
            i <= streams.len(),
            defaults.len() == i,
            forall|k: int|
                0 <= k < i ==> #[trigger] defaults[k] == preferred(
                    languages.deep_view(),
                    streams[k].language@,
                ),
        decreases streams.len() - i,
    {
        defaults.push(is_preferred(languages, &streams[i].language));
        i = i + 1;
    }
    defaults
}

/// The places in the clip of the selected subtitle streams.
pub fn selected_subtitles(streams: &Vec<SubtitleStreamInfo>, selected: &Vec<usize>) -> (r: Vec<
    usize,
>)
    requires
        forall|i: int| 0 <= i < selected.len() ==> #[trigger] selected[i] < streams.len(),
    ensures
        r@ == Seq::new(selected@.len(), |i: int| streams[selected[i] as int].index_in_clip),
{
    let ghost all = Seq::new(selected@.len(), |i: int| streams[selected[i] as int].index_in_clip);
    let mut places: Vec<usize> = Vec::new();
    let mut i: usize = 0;
    while i < selected.len()
        invariant
            i <= selected.len(),
            forall|k: int| 0 <= k < selected.len() ==> #[trigger] selected[k] < streams.len(),
            all == Seq::new(selected@.len(), |k: int| streams[selected[k] as int].index_in_clip),
            places@ == all.take(i as int),
        decreases selected.len() - i,
    {
        assert(selected[i as int] < streams.len());
        places.push(streams[selected[i]].index_in_clip);
        assert(places@ =~= all.take(i + 1));
        i = i + 1;
    }
    assert(all.take(i as int) =~= all);
    places
}

/// The place of a title is that of the first one with its index; where no title has
/// it, it lies behind the last.
pub proof fn places_are_found(titles: Seq<analysis::AnalysedTitleModel>, index: u32)
    ensures
        0 <= title_place(titles, index) <= titles.len(),
        title_place(titles, index) < titles.len() ==> titles[title_place(titles, index)].index
            == index,
        forall|i: int|
            0 <= i < title_place(titles, index) ==> (#[trigger] titles[i]).index != index,
    decreases titles.len(),
{
    if titles.len() > 0 && titles[0].index != index {
        let rest = titles.skip(1);
        places_are_found(rest, index);
        assert forall|i: int| 0 <= i < title_place(titles, index) implies (
        #[trigger] titles[i]).index != index by {
            if i > 0 {
                assert(rest[i - 1] == titles[i]);
            }
        }
        if title_place(titles, index) < titles.len() {
            assert(rest[title_place(rest, index)] == titles[title_place(titles, index)]);
        }
    }
}

/// The preselected title is the detected movie where it is listed, else the first.
pub proof fn the_detected_movie_is_preselected(a: analysis::TitleAnalysisModel, k: int)
    requires
        a.detected_type is Movie,
        0 <= k < a.titles.len(),
        a.titles[k].index == a.detected_type->title_idx,
    ensures
        0 <= preselected(a) <= k,
        a.titles[preselected(a)].index == a.detected_type->title_idx,
{
    places_are_found(a.titles, a.detected_type->title_idx);
}

/// Without a preference every stream is preselected; with one, a stream is where its
/// language is among the preferred ones.
pub proof fn preferences_decide(languages: Seq<Seq<char>>, language: Seq<char>, k: int)
    ensures
        languages.len() == 0 ==> preferred(languages, language),
        0 <= k < languages.len() && languages[k] == language ==> preferred(languages, language),
        languages.len() > 0 && (forall|i: int|
            0 <= i < languages.len() ==> languages[i] != language) ==> !preferred(
            languages,
            language,
        ),
{
    if 0 <= k < languages.len() && languages[k] == language {
        assert(languages.contains(language));
    }
}

/// The address of a page on TMDB is looked up by its number where it is of the kind
/// that is wanted; anything else is searched for.
pub proof fn addresses_are_fetched(input: Seq<char>, kind: TmdbUrlType, id: u64)
    ensures
        tmdb::url_target(input) == Some((kind, id as nat)) ==> lookup_of(input, kind)
            == Lookup::Fetch(id),
        tmdb::url_target(input) is None ==> lookup_of(input, kind) == Lookup::Search,
        tmdb::url_target(input) matches Some((found, _)) && found != kind ==> lookup_of(
            input,
            kind,
        ) == Lookup::Search,
{
}

/// What a stream is coded in has its name by the number of its coding.
pub proof fn codings_are_named(ct: u8)
    ensures
        coding_name(0x01) == "MPEG-1"@,
        coding_name(0x02) == "MPEG-2"@,
        coding_name(0x03) == "MPEG-2 Audio"@,
        coding_name(0x80) == "LPCM"@,
        coding_name(0x81) == "AC-3"@,
        coding_name(0x82) == "DTS"@,
        coding_name(0x83) == "TrueHD"@,
        coding_name(0x84) == "EAC-3"@,
        coding_name(0x85) == "DTS-HD"@,
        coding_name(0x86) == "DTS-HD MA"@,
        coding_name(0xA1) == "EAC-3 2nd"@,
        coding_name(0xA2) == "DTS-HD 2nd"@,
        ct == 0 || 0x03 < ct < 0x80 || 0x86 < ct < 0xA1 || ct > 0xA2 ==> coding_name(ct)
            == "Unknown"@,
{
}

/// A title is preselected as an episode where the disc was found to hold a show with
/// it, and only there.
pub proof fn found_episodes_are_preselected(detected: analysis::DiscTypeModel, index: u32, k: int)
    ensures
        detected is Movie ==> !is_episode(detected, index),
        detected matches analysis::DiscTypeModel::Show { episode_indices } ==> {
            &&& 0 <= k < episode_indices.len() && episode_indices[k] == index ==> is_episode(
                detected,
                index,
            )
            &&& (forall|i: int| 0 <= i < episode_indices.len() ==> episode_indices[i] != index)
                ==> !is_episode(detected, index)
        },
{
}

/// Titles, streams, seasons and search results are offered in order, each under its
/// own label; streams are counted from zero.
pub proof fn labels_say_what_they_stand_for(
    titles: Seq<analysis::AnalysedTitleModel>,
    audio: Seq<analysis::AudioStreamModel>,
    subtitles: Seq<analysis::SubtitleStreamModel>,
    movies: Seq<tmdb::TmdbMovieModel>,
    shows: Seq<tmdb::TmdbShowModel>,
    i: int,
)
    ensures
        movie_labels(titles).len() == titles.len(),
        show_labels(titles).len() == titles.len(),
        0 <= i < titles.len() ==> {
            let number = text::padded(text::decimal(titles[i].index as nat), 3, ' ');
            let label = "Title "@ + number + "  "@ + text::clock(titles[i].duration_secs as nat)
                + "  ch="@ + text::decimal(titles[i].chapter_count as nat) + "  audio="@
                + text::decimal(titles[i].audio_streams.len()) + "  subs="@ + text::decimal(
                titles[i].subtitle_streams.len(),
            );
            &&& show_labels(titles)[i] == label
            &&& movie_labels(titles)[i] == label + "  score="@ + text::signed_decimal(
                titles[i].score as int,
            )
        },
        audio_labels(audio).len() == audio.len(),
        0 <= i < audio.len() ==> audio_labels(audio)[i] == "Audio "@ + text::decimal(i as nat)
            + "  "@ + audio[i].language + "  "@ + coding_name(audio[i].coding_type),
        subtitle_labels(subtitles).len() == subtitles.len(),
        0 <= i < subtitles.len() ==> subtitle_labels(subtitles)[i] == "Subtitle "@ + text::decimal(
            i as nat,
        ) + "  "@ + subtitles[i].language,
        movie_result_labels(movies).len() == movies.len(),
        0 <= i < movies.len() ==> {
            &&& movies[i].year matches Some(y) ==> movie_result_labels(movies)[i]
                == movies[i].title + " ("@ + text::decimal(y as nat) + ")"@
            &&& movies[i].year is None ==> movie_result_labels(movies)[i] == movies[i].title
        },
        show_result_labels(shows).len() == shows.len(),
        0 <= i < shows.len() ==> {
            &&& shows[i].year matches Some(y) ==> show_result_labels(shows)[i] == shows[i].name
                + " ("@ + text::decimal(y as nat) + ")"@
            &&& shows[i].year is None ==> show_result_labels(shows)[i] == shows[i].name
        },
{
}

/// Where nothing was found to preselect, the first title is.
pub proof fn else_the_first_title_is_preselected(a: analysis::TitleAnalysisModel)
    ensures
        a.detected_type is Show ==> preselected(a) == 0,
        a.detected_type is Movie && (forall|i: int|
            0 <= i < a.titles.len() ==> (#[trigger] a.titles[i]).index
                != a.detected_type->title_idx) ==> preselected(a) == 0,
{
    if a.detected_type is Movie {
        places_are_found(a.titles, a.detected_type->title_idx);
    }
}

/// Numbers are listed with a comma and a space between them.
pub proof fn numbers_are_listed_with_commas(numbers: Seq<u32>, last: u32)
    ensures
        number_list(Seq::empty()).len() == 0,
        number_list(seq![last]) == text::decimal(last as nat),
        numbers.len() > 0 ==> number_list(numbers.push(last)) == number_list(numbers) + ", "@
            + text::decimal(last as nat),
{
    assert(numbers.push(last).drop_last() =~= numbers);
}

} // verus!
