//! The Movie Database: what is asked of it and what its answers mean.
use vstd::prelude::*;

use crate::{list, text};

verus! {

/// Why a lookup failed. A failure of the connection carries its own text.
#[derive(Debug)]
pub enum TmdbError {
    Http(String),
    NoToken,
    NotFound,
}

impl TmdbError {
    /// The text shown to the user.
    pub open spec fn message_text(self) -> Seq<char> {
        match self {
            TmdbError::Http(e) => "TMDB HTTP error: "@ + e@,
            TmdbError::NoToken => "TMDB token not configured"@,
            TmdbError::NotFound => "Not found on TMDB"@,
        }
    }

    /// The text shown to the user.
    pub fn message(&self) -> (r: String)
        ensures
            r@ == self.message_text(),
    {
        match self {
            TmdbError::Http(e) => "TMDB HTTP error: ".to_owned().concat(e.as_str()),
            TmdbError::NoToken => "TMDB token not configured".to_owned(),
            TmdbError::NotFound => "Not found on TMDB".to_owned(),
        }
    }
}

/// A name with the year behind it, where there is one.
pub open spec fn dated(name: Seq<char>, year: Option<u16>) -> Seq<char> {
    match year {
        Some(y) => name + " ("@ + text::decimal(y as nat) + ")"@,
        None => name,
    }
}

fn dated_label(name: &String, year: Option<u16>) -> (r: String)
    ensures
        r@ == dated(name@, year),
{
    let mut label = name.clone();
    if let Some(y) = year {
        label.append(" (");
        text::push_decimal(&mut label, y as u64);
        label.append(")");
    }
    label
}

#[derive(Debug)]
pub struct TmdbMovie {
    pub id: u64,
    pub title: String,
    pub year: Option<u16>,
    pub overview: String,
}

/// What a `TmdbMovie` says.
pub ghost struct TmdbMovieModel {
    pub id: u64,
    pub title: Seq<char>,
    pub year: Option<u16>,
    pub overview: Seq<char>,
}

impl DeepView for TmdbMovie {
    type V = TmdbMovieModel;

    open spec fn deep_view(&self) -> TmdbMovieModel {
        TmdbMovieModel {
            id: self.id,
            title: self.title@,
            year: self.year,
            overview: self.overview@,
        }
    }
}

impl TmdbMovie {
    /// The movie as it is listed.
    pub fn label(&self) -> (r: String)
        ensures
            r@ == dated(self.title@, self.year),
    {
        dated_label(&self.title, self.year)
    }
}

impl Clone for TmdbMovie {
    fn clone(&self) -> (r: Self)
        ensures
            r.deep_view() == self.deep_view(),
    {
        TmdbMovie {
            id: self.id,
            title: self.title.clone(),
            year: self.year,
            overview: self.overview.clone(),
        }
    }
}

#[derive(Debug, Clone)]
pub struct TmdbShow {
    pub id: u64,
    pub name: String,
    pub year: Option<u16>,
    pub overview: String,
    pub seasons: Vec<TmdbSeason>,
}

/// What a `TmdbShow` says.
pub ghost struct TmdbShowModel {
    pub id: u64,
    pub name: Seq<char>,
    pub year: Option<u16>,
    pub overview: Seq<char>,
    pub seasons: Seq<TmdbSeasonModel>,
}

impl DeepView for TmdbShow {
    type V = TmdbShowModel;

    open spec fn deep_view(&self) -> TmdbShowModel {
        TmdbShowModel {
            id: self.id,
            name: self.name@,
            year: self.year,
            overview: self.overview@,
            seasons: self.seasons.deep_view(),
        }
    }
}

impl TmdbShow {
    /// The show as it is listed.
    pub fn label(&self) -> (r: String)
        ensures
            r@ == dated(self.name@, self.year),
    {
        dated_label(&self.name, self.year)
    }
}

#[derive(Debug, Clone)]
pub struct TmdbSeason {
    pub season_number: u32,
    pub episode_count: u32,
    pub name: String,
}

/// What a `TmdbSeason` says.
pub ghost struct TmdbSeasonModel {
    pub season_number: u32,
    pub episode_count: u32,
    pub name: Seq<char>,
}

impl DeepView for TmdbSeason {
    type V = TmdbSeasonModel;

    open spec fn deep_view(&self) -> TmdbSeasonModel {
        TmdbSeasonModel {
            season_number: self.season_number,
            episode_count: self.episode_count,
            name: self.name@,
        }
    }
}

impl TmdbSeasonModel {
    /// The season as it is listed.
    pub open spec fn label_text(self) -> Seq<char> {
        self.name + " ("@ + text::decimal(self.episode_count as nat) + " episodes)"@
    }
}

impl TmdbSeason {
    /// The season as it is listed.
    pub fn label(&self) -> (r: String)
        ensures
            r@ == self.deep_view().label_text(),
    {
        let mut label = self.name.clone();
        label.append(" (");
        text::push_decimal(&mut label, self.episode_count as u64);
        label.append(" episodes)");
        label
    }
}

#[derive(Debug, Clone)]
pub struct TmdbEpisode {
    pub episode_number: u32,
    pub name: String,
}

/// What a `TmdbEpisode` says.
pub ghost struct TmdbEpisodeModel {
    pub episode_number: u32,
    pub name: Seq<char>,
}

impl DeepView for TmdbEpisode {
    type V = TmdbEpisodeModel;

    open spec fn deep_view(&self) -> TmdbEpisodeModel {
        TmdbEpisodeModel { episode_number: self.episode_number, name: self.name@ }
    }
}

// --- addresses ---

#[derive(Debug, Clone, Copy, PartialEq, Eq, Structural)]
pub enum TmdbUrlType {
    Movie,
    Tv,
}

/// The number that follows the first occurrence of a mark in a text.
pub open spec fn id_behind(s: Seq<char>, mark: Seq<char>) -> Option<nat> {
    match text::find_from(s, mark, 0) {
        Some(i) => {
            let from = i + mark.len();
            text::parse_digits(s.subrange(from, text::digits_end(s, from)), u64::MAX as nat)
        },
        None => None,
    }
}

/// What a TMDB address points at.
pub open spec fn url_target(input: Seq<char>) -> Option<(TmdbUrlType, nat)> {
    match id_behind(text::trim(input), "themoviedb.org/movie/"@) {
        Some(id) => Some((TmdbUrlType::Movie, id)),
        None => match id_behind(text::trim(input), "themoviedb.org/tv/"@) {
            Some(id) => Some((TmdbUrlType::Tv, id)),
            None => None,
        },
    }
}

fn find_id(chars: &Vec<char>, mark: &str) -> (r: Option<u64>)
    ensures
        match r {
            Some(id) => id_behind(chars@, mark@) == Some(id as nat),
            None => id_behind(chars@, mark@) is None,
        },
{
    match text::find_pattern(chars, mark) {
        Some(i) => {
            let mark_chars = text::chars_of(mark);
            assert(i + mark_chars.len() <= chars.len());
            let from: usize = i + mark_chars.len();
            let to: usize = text::digits_run_end(chars, from);
            text::parse_digit_range(chars, from, to, u64::MAX)
        },
        None => None,
    }
}

/// Parse a TMDB URL and extract the type and ID.
/// Accepts: https://www.themoviedb.org/movie/550-fight-club
///          https://www.themoviedb.org/tv/1396-breaking-bad
pub fn parse_tmdb_url(input: &str) -> (r: Option<(TmdbUrlType, u64)>)
    ensures
        match r {
            Some((kind, id)) => url_target(input@) == Some((kind, id as nat)),
            None => url_target(input@) is None,
        },
{
    let chars = text::trimmed(&text::chars_of(input));
    // Try movie URL
    if let Some(id) = find_id(&chars, "themoviedb.org/movie/") {
        return Some((TmdbUrlType::Movie, id));
    }
    // Try TV URL
    if let Some(id) = find_id(&chars, "themoviedb.org/tv/") {
        return Some((TmdbUrlType::Tv, id));
    }
    None
}

/// The year at the start of a date.
pub open spec fn year_of(date: Seq<char>) -> Option<nat> {
    if date.len() >= 4 {
        text::parse_number(date.take(4), u16::MAX as nat)
    } else {
        None
    }
}

/// The year at the start of a date.
pub fn extract_year(date: &str) -> (r: Option<u16>)
    ensures
        match r {
            Some(y) => year_of(date@) == Some(y as nat),
            None => year_of(date@) is None,
        },
{
    let chars = text::chars_of(date);
    if chars.len() < 4 {
        return None;
    }
    let head = text::text_of_range(&chars, 0, 4);
    match text::parse_number_text(head.as_str(), u16::MAX as u64) {
        Some(y) => Some(y as u16),
        None => None,
    }
}

/// The year at the start of a date that may be missing.
pub open spec fn year_in(date: Option<Seq<char>>) -> Option<u16> {
    match date {
        Some(date) => match year_of(date) {
            Some(y) => Some(y as u16),
            None => None,
        },
        None => None,
    }
}

fn optional_year(date: &Option<String>) -> (r: Option<u16>)
    ensures
        r == year_in(date.deep_view()),
{
    match date {
        Some(date) => extract_year(date.as_str()),
        None => None,
    }
}

/// A text that may be missing.
pub open spec fn or_empty(s: Option<Seq<char>>) -> Seq<char> {
    match s {
        Some(s) => s,
        None => Seq::empty(),
    }
}

fn text_or_empty(s: &Option<String>) -> (r: String)
    ensures
        r@ == or_empty(s.deep_view()),
{
    match s {
        Some(s) => s.clone(),
        None => String::new(),
    }
}

// --- requests ---

/// The address of a resource.
pub open spec fn address(path: Seq<char>) -> Seq<char> {
    "https://api.themoviedb.org/3"@ + path
}

fn address_of(path: &str) -> (r: String)
    ensures
        r@ == address(path@),
{
    "https://api.themoviedb.org/3".to_owned().concat(path)
}

/// Where movies are searched.
pub fn movie_search_url() -> (r: String)
    ensures
        r@ == address("/search/movie"@),
{
    address_of("/search/movie")
}

/// Where shows are searched.
pub fn tv_search_url() -> (r: String)
    ensures
        r@ == address("/search/tv"@),
{
    address_of("/search/tv")
}

/// Where a movie is found.
pub fn movie_url(id: u64) -> (r: String)
    ensures
        r@ == address("/movie/"@ + text::decimal(id as nat)),
{
    let mut path = "/movie/".to_owned();
    text::push_decimal(&mut path, id);
    address_of(path.as_str())
}

/// Where a show is found.
pub fn tv_url(id: u64) -> (r: String)
    ensures
        r@ == address("/tv/"@ + text::decimal(id as nat)),
{
    let mut path = "/tv/".to_owned();
    text::push_decimal(&mut path, id);
    address_of(path.as_str())
}

/// Where the episodes of a season are found.
pub fn season_url(tv_id: u64, season_number: u32) -> (r: String)
    ensures
        r@ == address(
            "/tv/"@ + text::decimal(tv_id as nat) + "/season/"@ + text::decimal(
                season_number as nat,
            ),
        ),
{
    let mut path = "/tv/".to_owned();
    text::push_decimal(&mut path, tv_id);
    path.append("/season/");
    text::push_decimal(&mut path, season_number as u64);
    address_of(path.as_str())
}

// --- answers ---

/// A movie as the service gives it.
#[derive(Debug)]
pub struct MovieResult {
    pub id: u64,
    pub title: String,
    pub release_date: Option<String>,
    pub overview: Option<String>,
}

/// A show as the service gives it; a search gives no seasons.
#[derive(Debug)]
pub struct TvResult {
    pub id: u64,
    pub name: String,
    pub first_air_date: Option<String>,
    pub overview: Option<String>,
    pub seasons: Option<Vec<SeasonSummary>>,
}

/// A season as the service gives it.
#[derive(Debug)]
pub struct SeasonSummary {
    pub season_number: u32,
    pub episode_count: u32,
    pub name: Option<String>,
}

/// An episode as the service gives it.
#[derive(Debug)]
pub struct EpisodeResult {
    pub episode_number: u32,
    pub name: Option<String>,
}

/// What a movie in an answer stands for.
pub open spec fn movie_of(r: MovieResult) -> TmdbMovieModel {
    TmdbMovieModel {
        id: r.id,
        title: r.title@,
        year: year_in(r.release_date.deep_view()),
        overview: or_empty(r.overview.deep_view()),
    }
}

/// What a movie in an answer stands for.
pub fn movie_from_result(r: &MovieResult) -> (movie: TmdbMovie)
    ensures
        movie.deep_view() == movie_of(*r),
{
    TmdbMovie {
        id: r.id,
        title: r.title.clone(),
        year: optional_year(&r.release_date),
        overview: text_or_empty(&r.overview),
    }
}

/// What a list of movies stands for.
pub open spec fn movies_of(results: Seq<MovieResult>) -> Seq<TmdbMovieModel> {
    results.map_values(|r: MovieResult| movie_of(r))
}

/// What a list of movies stands for.
pub fn movies_from_results(results: &Vec<MovieResult>) -> (movies: Vec<TmdbMovie>)
    ensures
        movies.deep_view() == movies_of(results@),
{
    let ghost all = movies_of(results@);
    let mut movies: Vec<TmdbMovie> = list::empty();
    let mut i: usize = 0;
    while i < results.len()
        invariant
            i <= results.len(),
            all == movies_of(results@),
            movies.deep_view() == all.take(i as int),
        decreases results.len() - i,
    {
        list::push(&mut movies, movie_from_result(&results[i]));
        assert(movies.deep_view() =~= all.take(i + 1));
        i = i + 1;
    }
    assert(all.take(i as int) =~= all);
    movies
}

/// What a season in an answer stands for. One without a name is named after its
/// number.
pub open spec fn season_of(s: SeasonSummary) -> TmdbSeasonModel {
    TmdbSeasonModel {
        season_number: s.season_number,
        episode_count: s.episode_count,
        name: match s.name {
            Some(name) => name@,
            None => "Season "@ + text::decimal(s.season_number as nat),
        },
    }
}

/// What the seasons in an answer stand for.
pub open spec fn seasons_of(seasons: Option<Vec<SeasonSummary>>) -> Seq<TmdbSeasonModel> {
    match seasons {
        Some(seasons) => seasons@.map_values(|s: SeasonSummary| season_of(s)),
        None => Seq::empty(),
    }
}

fn seasons_from_result(seasons: &Option<Vec<SeasonSummary>>) -> (r: Vec<TmdbSeason>)
    ensures
        r.deep_view() == seasons_of(*seasons),
{
    let ghost all = seasons_of(*seasons);
    let mut r: Vec<TmdbSeason> = list::empty();
    if let Some(given) = seasons {
        let mut i: usize = 0;
        while i < given.len()
            invariant
                i <= given.len(),
                *seasons == Some(*given),
                all == seasons_of(*seasons),
                r.deep_view() == all.take(i as int),
            decreases given.len() - i,
        {
            let s = &given[i];
            let name: String = match &s.name {
                Some(name) => name.clone(),
                None => {
                    let mut name = "Season ".to_owned();
                    text::push_decimal(&mut name, s.season_number as u64);
                    name
                },
            };
            list::push(
                &mut r,
                TmdbSeason {
                    season_number: s.season_number,
                    episode_count: s.episode_count,
                    name,
                },
            );
            assert(r.deep_view() =~= all.take(i + 1));
            i = i + 1;
        }
        assert(all.take(i as int) =~= all);
    }
    r
}

/// What a show in an answer stands for.
pub open spec fn show_of(r: TvResult) -> TmdbShowModel {
    TmdbShowModel {
        id: r.id,
        name: r.name@,
        year: year_in(r.first_air_date.deep_view()),
        overview: or_empty(r.overview.deep_view()),
        seasons: seasons_of(r.seasons),
    }
}

/// What a show in an answer stands for.
pub fn show_from_result(r: &TvResult) -> (show: TmdbShow)
    ensures
        show.deep_view() == show_of(*r),
{
    TmdbShow {
        id: r.id,
        name: r.name.clone(),
        year: optional_year(&r.first_air_date),
        overview: text_or_empty(&r.overview),
        seasons: seasons_from_result(&r.seasons),
    }
}

/// What a list of shows stands for.
pub open spec fn shows_of(results: Seq<TvResult>) -> Seq<TmdbShowModel> {
    results.map_values(|r: TvResult| show_of(r))
}

/// What a list of shows stands for.
pub fn shows_from_results(results: &Vec<TvResult>) -> (shows: Vec<TmdbShow>)
    ensures
        shows.deep_view() == shows_of(results@),
{
    let ghost all = shows_of(results@);
    let mut shows: Vec<TmdbShow> = list::empty();
    let mut i: usize = 0;
    while i < results.len()
        invariant
            i <= results.len(),
            all == shows_of(results@),
            shows.deep_view() == all.take(i as int),
        decreases results.len() - i,
    {
        list::push(&mut shows, show_from_result(&results[i]));
        assert(shows.deep_view() =~= all.take(i + 1));
        i = i + 1;
    }
    assert(all.take(i as int) =~= all);
    shows
}

/// What the episodes in an answer stand for.
pub open spec fn episodes_of(episodes: Option<Vec<EpisodeResult>>) -> Seq<TmdbEpisodeModel> {
    match episodes {
        Some(episodes) => episodes@.map_values(
            |e: EpisodeResult|
                TmdbEpisodeModel {
                    episode_number: e.episode_number,
                    name: or_empty(e.name.deep_view()),
                },
        ),
        None => Seq::empty(),
    }
}

/// What the episodes in an answer stand for.
pub fn episodes_from_result(episodes: &Option<Vec<EpisodeResult>>) -> (r: Vec<TmdbEpisode>)
    ensures
        r.deep_view() == episodes_of(*episodes),
{
    let ghost all = episodes_of(*episodes);
    let mut r: Vec<TmdbEpisode> = list::empty();
    if let Some(given) = episodes {
        let mut i: usize = 0;
        while i < given.len()
            invariant
                i <= given.len(),
                *episodes == Some(*given),
                all == episodes_of(*episodes),
                r.deep_view() == all.take(i as int),
            decreases given.len() - i,
        {
            let episode = TmdbEpisode {
                episode_number: given[i].episode_number,
                name: text_or_empty(&given[i].name),
            };
            list::push(&mut r, episode);
            assert(r.deep_view() =~= all.take(i + 1));
            i = i + 1;
        }
        assert(all.take(i as int) =~= all);
    }
    r
}

/// The address of a movie or a show on the website.
pub open spec fn page(kind: TmdbUrlType, id: u64, words: Seq<char>) -> Seq<char> {
    match kind {
        TmdbUrlType::Movie => "https://www.themoviedb.org/movie/"@ + text::decimal(id as nat)
            + words,
        TmdbUrlType::Tv => "https://www.themoviedb.org/tv/"@ + text::decimal(id as nat) + words,
    }
}

/// The address of a movie on the website leads back to its number, and so does
/// that of a show unless the words behind it hold a movie's address.
pub proof fn addresses_lead_back(kind: TmdbUrlType, id: u64, words: Seq<char>)
    requires
        words.len() > 0,
        !text::is_digit(words[0]),
        !text::is_white(words.last()),
        kind is Tv ==> id_behind(page(kind, id, words), "themoviedb.org/movie/"@) is None,
    ensures
        url_target(page(kind, id, words)) == Some((kind, id as nat)),
{
    reveal_strlit("https://www.themoviedb.org/movie/");
    reveal_strlit("https://www.themoviedb.org/tv/");
    reveal_strlit("themoviedb.org/movie/");
    reveal_strlit("themoviedb.org/tv/");
    match kind {
        TmdbUrlType::Movie => {
            let head = "https://www.themoviedb.org/movie/"@;
            assert(head =~= "https://www."@ + "themoviedb.org/movie/"@) by {
                reveal_strlit("https://www.");
            }
            lemma_page(head, "themoviedb.org/movie/"@, id, words);
        },
        TmdbUrlType::Tv => {
            let head = "https://www.themoviedb.org/tv/"@;
            assert(head =~= "https://www."@ + "themoviedb.org/tv/"@) by {
                reveal_strlit("https://www.");
            }
            lemma_page(head, "themoviedb.org/tv/"@, id, words);
        },
    }
}

proof fn lemma_page(head: Seq<char>, mark: Seq<char>, id: u64, words: Seq<char>)
    requires
        head == "https://www."@ + mark,
        mark.len() > 3,
        mark[0] == 't' && mark[1] == 'h',
        words.len() > 0,
        !text::is_digit(words[0]),
        !text::is_white(words.last()),
    ensures
        text::trim(head + text::decimal(id as nat) + words) == head + text::decimal(id as nat)
            + words,
        id_behind(head + text::decimal(id as nat) + words, mark) == Some(id as nat),
{
    reveal_strlit("https://www.");
    let digits = text::decimal(id as nat);
    let s = head + digits + words;
    text::decimal_reads_back(id as nat);
    assert(s[0] == 'h');
    assert(s.last() == words.last());
    lemma_untrimmed(s);
    // The mark stands behind the scheme and the host's first label, and nowhere
    // before.
    let at = 12int;
    assert(s.subrange(at, at + mark.len()) =~= mark);
    assert forall|i: int| 0 <= i < at implies !text::stands_at(s, mark, i) by {
        assert(s.subrange(i, i + mark.len())[0] == head[i]);
        assert(s.subrange(i, i + mark.len())[1] == head[i + 1]);
    }
    text::lemma_found_at(s, mark, 0, at);
    let from = at + mark.len() as int;
    let end = from + digits.len() as int;
    assert(s[end] == words[0]);
    assert forall|i: int| from <= i < end implies text::is_digit(#[trigger] s[i]) by {
        assert(s[i] == digits[i - from]);
    }
    text::lemma_digits_until(s, from, end);
    assert(s.subrange(from, end) =~= digits);
}

proof fn lemma_untrimmed(s: Seq<char>)
    requires
        s.len() > 0,
        !text::is_white(s[0]),
        !text::is_white(s.last()),
    ensures
        text::trim(s) == s,
{
    assert(text::skip_white(s, 0) == 0);
    assert(text::trim(s) =~= s);
}

/// The year of a date is read from its first four characters; a shorter date has
/// none.
pub proof fn years_stand_first(y: u16, rest: Seq<char>)
    requires
        1000 <= y <= 9999,
    ensures
        year_in(Some(text::decimal(y as nat) + rest)) == Some(y),
        rest.len() < 4 ==> year_in(Some(rest)) is None,
        year_in(None) is None,
{
    let d = text::decimal(y as nat);
    reveal_with_fuel(text::decimal, 4);
    assert(d.len() == 4);
    assert((d + rest).take(4) =~= d);
    text::numbers_are_read_from_their_numerals(y as nat, u16::MAX as nat, Seq::empty(), 0);
}

/// Movies, shows, seasons and episodes are taken over in order, with an empty text
/// for what is missing, the year of the date and a name for each season.
pub proof fn results_are_taken_over(
    movies: Seq<MovieResult>,
    shows: Seq<TvResult>,
    seasons: Vec<SeasonSummary>,
    episodes: Vec<EpisodeResult>,
    i: int,
)
    ensures
        movies_of(movies).len() == movies.len(),
        0 <= i < movies.len() ==> {
            let m = movies_of(movies)[i];
            let r = movies[i];
            &&& m.id == r.id
            &&& m.title == r.title@
            &&& r.overview matches Some(text) ==> m.overview == text@
            &&& r.overview is None ==> m.overview.len() == 0
            &&& r.release_date matches Some(date) ==> m.year == year_in(Some(date@))
            &&& r.release_date is None ==> m.year is None
        },
        shows_of(shows).len() == shows.len(),
        0 <= i < shows.len() ==> {
            let s = shows_of(shows)[i];
            let r = shows[i];
            &&& s.id == r.id
            &&& s.name == r.name@
            &&& r.overview matches Some(text) ==> s.overview == text@
            &&& r.overview is None ==> s.overview.len() == 0
            &&& r.first_air_date matches Some(date) ==> s.year == year_in(Some(date@))
            &&& r.first_air_date is None ==> s.year is None
            &&& r.seasons is None ==> s.seasons.len() == 0
            &&& r.seasons matches Some(seasons) ==> s.seasons == seasons_of(Some(seasons))
        },
        seasons_of(Some(seasons)).len() == seasons.len(),
        0 <= i < seasons.len() ==> {
            let s = seasons_of(Some(seasons))[i];
            &&& s.season_number == seasons[i].season_number
            &&& s.episode_count == seasons[i].episode_count
            &&& seasons[i].name matches Some(name) ==> s.name == name@
            &&& seasons[i].name is None ==> s.name == "Season "@ + text::decimal(
                seasons[i].season_number as nat,
            )
        },
        episodes_of(Some(episodes)).len() == episodes.len(),
        0 <= i < episodes.len() ==> {
            let e = episodes_of(Some(episodes))[i];
            &&& e.episode_number == episodes[i].episode_number
            &&& episodes[i].name matches Some(name) ==> e.name == name@
            &&& episodes[i].name is None ==> e.name.len() == 0
        },
        episodes_of(None).len() == 0,
{
}

} // verus!
