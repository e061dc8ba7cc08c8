use discrip::tmdb::{
    episodes_from_result, extract_year, movie_from_result, movie_search_url, movie_url,
    movies_from_results, parse_tmdb_url, season_url, show_from_result, shows_from_results,
    tv_search_url, tv_url, EpisodeResult, MovieResult, SeasonSummary, TmdbError, TmdbUrlType,
    TvResult,
};

#[test]
fn addresses_give_type_and_number() {
    assert_eq!(
        parse_tmdb_url("https://www.themoviedb.org/movie/550-fight-club"),
        Some((TmdbUrlType::Movie, 550))
    );
    assert_eq!(
        parse_tmdb_url("  https://www.themoviedb.org/tv/1396-breaking-bad\n"),
        Some((TmdbUrlType::Tv, 1396))
    );
    assert_eq!(parse_tmdb_url("themoviedb.org/movie/7"), Some((TmdbUrlType::Movie, 7)));
    assert_eq!(parse_tmdb_url("https://www.themoviedb.org/movie/"), None);
    assert_eq!(parse_tmdb_url("themoviedb.org/movie/x themoviedb.org/movie/5"), None);
    assert_eq!(
        parse_tmdb_url("themoviedb.org/movie/x themoviedb.org/tv/5"),
        Some((TmdbUrlType::Tv, 5))
    );
    assert_eq!(parse_tmdb_url("themoviedb.org/tv/99999999999999999999"), None);
    assert_eq!(parse_tmdb_url("fight club"), None);
}

#[test]
fn years_start_a_date() {
    assert_eq!(extract_year("1999-10-15"), Some(1999));
    assert_eq!(extract_year("1999"), Some(1999));
    assert_eq!(extract_year("+199"), Some(199));
    assert_eq!(extract_year("199"), None);
    assert_eq!(extract_year("99-1"), None);
    assert_eq!(extract_year(""), None);
}

#[test]
fn requests_go_to_the_api() {
    assert_eq!(movie_search_url(), "https://api.themoviedb.org/3/search/movie");
    assert_eq!(tv_search_url(), "https://api.themoviedb.org/3/search/tv");
    assert_eq!(movie_url(550), "https://api.themoviedb.org/3/movie/550");
    assert_eq!(tv_url(1396), "https://api.themoviedb.org/3/tv/1396");
    assert_eq!(season_url(1396, 2), "https://api.themoviedb.org/3/tv/1396/season/2");
}

#[test]
fn answers_become_movies_and_shows() {
    let result = MovieResult {
        id: 550,
        title: "Fight Club".to_string(),
        release_date: Some("1999-10-15".to_string()),
        overview: None,
    };
    let movie = movie_from_result(&result);
    assert_eq!((movie.id, movie.year, movie.overview.as_str()), (550, Some(1999), ""));
    assert_eq!(movie.label(), "Fight Club (1999)");
    assert_eq!(movies_from_results(&vec![result]).len(), 1);
    let result = TvResult {
        id: 1,
        name: "Dark".to_string(),
        first_air_date: Some(String::new()),
        overview: Some("o".to_string()),
        seasons: Some(vec![
            SeasonSummary { season_number: 0, episode_count: 3, name: Some("Specials".to_string()) },
            SeasonSummary { season_number: 1, episode_count: 10, name: None },
        ]),
    };
    let show = show_from_result(&result);
    assert_eq!(show.label(), "Dark");
    assert_eq!(show.overview, "o");
    assert_eq!(show.seasons[0].label(), "Specials (3 episodes)");
    assert_eq!(show.seasons[1].label(), "Season 1 (10 episodes)");
    assert_eq!(shows_from_results(&vec![result])[0].id, 1);
    let episodes = episodes_from_result(&Some(vec![EpisodeResult { episode_number: 2, name: None }]));
    assert_eq!((episodes[0].episode_number, episodes[0].name.as_str()), (2, ""));
    assert!(episodes_from_result(&None).is_empty());
}

#[test]
fn tmdb_errors_say_what_failed() {
    assert_eq!(TmdbError::Http("x".to_string()).message(), "TMDB HTTP error: x");
    assert_eq!(TmdbError::NoToken.message(), "TMDB token not configured");
    assert_eq!(TmdbError::NotFound.message(), "Not found on TMDB");
}
