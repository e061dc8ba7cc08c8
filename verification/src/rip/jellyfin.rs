//! The folders and file names that Jellyfin expects.
use vstd::prelude::*;

use crate::text;

verus! {

/// May a character not stand in a file name?
pub open spec fn is_forbidden(c: char) -> bool {
    c == '/' || c == '\\' || c == ':' || c == '*' || c == '?' || c == '"' || c == '<' || c == '>'
        || c == '|'
}

/// A name without the characters that may not stand in a file name.
pub open spec fn sanitized(name: Seq<char>) -> Seq<char> {
    name.filter(|c: char| !is_forbidden(c))
}

/// A name without the characters that may not stand in a file name.
pub fn sanitize_filename(name: &str) -> (r: String)
    ensures
        r@ == sanitized(name@),
{
    let chars = text::chars_of(name);
    let ghost keep = |c: char| !is_forbidden(c);
    let mut r = String::new();
    let mut i: usize = 0;
    assert(chars@.take(0).filter(keep) =~= Seq::empty()) by {
        reveal_with_fuel(Seq::filter, 1);
    }
    while i < chars.len()
        invariant
            i <= chars.len(),
            keep == (|c: char| !is_forbidden(c)),
            r@ == chars@.take(i as int).filter(keep),
        decreases chars.len() - i,
    {
        let c: char = chars[i];
        proof {
            reveal_with_fuel(Seq::filter, 1);
            assert(chars@.take(i + 1).drop_last() =~= chars@.take(i as int));
            assert(chars@.take(i + 1).last() == c);
        }
        if !(c == '/' || c == '\\' || c == ':' || c == '*' || c == '?' || c == '"' || c == '<' || c
            == '>' || c == '|') {
            r.push(c);
        }
        i = i + 1;
    }
    assert(chars@.take(i as int) =~= chars@);
    r
}

/// No forbidden character is left in a sanitized name.
pub proof fn sanitized_names_are_clean(name: Seq<char>, i: int)
    requires
        0 <= i < sanitized(name).len(),
    ensures
        !is_forbidden(sanitized(name)[i]),
{
    let keep = |c: char| !is_forbidden(c);
    name.lemma_filter_pred(keep, i);
}

/// The folder of a movie or a show.
pub open spec fn folder_name(name: Seq<char>, year: Option<u16>, tmdb_id: u64) -> Seq<char> {
    match year {
        Some(y) => sanitized(name) + " ("@ + text::decimal(y as nat) + ") [tmdbid-"@
            + text::decimal(tmdb_id as nat) + "]"@,
        None => sanitized(name) + " [tmdbid-"@ + text::decimal(tmdb_id as nat) + "]"@,
    }
}

fn make_folder_name(name: &str, year: Option<u16>, tmdb_id: u64) -> (r: String)
    ensures
        r@ == folder_name(name@, year, tmdb_id),
{
    let mut folder = sanitize_filename(name);
    match year {
        Some(y) => {
            folder.append(" (");
            text::push_decimal(&mut folder, y as u64);
            folder.append(") [tmdbid-");
        },
        None => {
            folder.append(" [tmdbid-");
        },
    }
    text::push_decimal(&mut folder, tmdb_id);
    folder.append("]");
    folder
}

/// A movie's file below the movie directory.
pub open spec fn movie_file(title: Seq<char>, year: Option<u16>, tmdb_id: u64) -> Seq<char> {
    text::joined(
        folder_name(title, year, tmdb_id),
        folder_name(title, year, tmdb_id) + ".mkv"@,
    )
}

/// A movie's file.
pub open spec fn movie_location(
    base_dir: Seq<char>,
    title: Seq<char>,
    year: Option<u16>,
    tmdb_id: u64,
) -> Seq<char> {
    text::joined(
        text::joined(base_dir, folder_name(title, year, tmdb_id)),
        folder_name(title, year, tmdb_id) + ".mkv"@,
    )
}

pub fn movie_path(base_dir: &str, title: &str, year: Option<u16>, tmdb_id: u64) -> (r: String)
    ensures
        r@ == movie_location(base_dir@, title@, year, tmdb_id),
{
    let folder = make_folder_name(title, year, tmdb_id);
    let mut file = folder.clone();
    file.append(".mkv");
    let dir = text::join_path(base_dir, folder.as_str());
    text::join_path(dir.as_str(), file.as_str())
}

/// A movie's file below the movie directory.
pub fn relative_movie_path(title: &str, year: Option<u16>, tmdb_id: u64) -> (r: String)
    ensures
        r@ == movie_file(title@, year, tmdb_id),
{
    let folder = make_folder_name(title, year, tmdb_id);
    let mut file = folder.clone();
    file.append(".mkv");
    text::join_path(folder.as_str(), file.as_str())
}

/// The folder of a season.
pub open spec fn season_name(season: u32) -> Seq<char> {
    "Season "@ + text::two_digits(season as nat)
}

/// The file name of an episode.
pub open spec fn episode_name(show_name: Seq<char>, season: u32, episode: u32) -> Seq<char> {
    sanitized(show_name) + " S"@ + text::two_digits(season as nat) + "E"@ + text::two_digits(
        episode as nat,
    ) + ".mkv"@
}

fn make_season_name(season: u32) -> (r: String)
    ensures
        r@ == season_name(season),
{
    let mut folder = "Season ".to_owned();
    text::push_two_digits(&mut folder, season as u64);
    folder
}

fn make_episode_name(show_name: &str, season: u32, episode: u32) -> (r: String)
    ensures
        r@ == episode_name(show_name@, season, episode),
{
    let mut file = sanitize_filename(show_name);
    file.append(" S");
    text::push_two_digits(&mut file, season as u64);
    file.append("E");
    text::push_two_digits(&mut file, episode as u64);
    file.append(".mkv");
    file
}

/// The directory of a season.
pub open spec fn season_location(
    base_dir: Seq<char>,
    show_name: Seq<char>,
    year: Option<u16>,
    tmdb_id: u64,
    season: u32,
) -> Seq<char> {
    text::joined(
        text::joined(base_dir, folder_name(show_name, year, tmdb_id)),
        season_name(season),
    )
}

/// An episode's file.
pub open spec fn episode_location(
    base_dir: Seq<char>,
    show_name: Seq<char>,
    year: Option<u16>,
    tmdb_id: u64,
    season: u32,
    episode: u32,
) -> Seq<char> {
    text::joined(
        season_location(base_dir, show_name, year, tmdb_id, season),
        episode_name(show_name, season, episode),
    )
}

/// An episode's file below the show directory.
pub open spec fn episode_file(
    show_name: Seq<char>,
    year: Option<u16>,
    tmdb_id: u64,
    season: u32,
    episode: u32,
) -> Seq<char> {
    text::joined(
        text::joined(folder_name(show_name, year, tmdb_id), season_name(season)),
        episode_name(show_name, season, episode),
    )
}

pub fn episode_path(
    base_dir: &str,
    show_name: &str,
    year: Option<u16>,
    tmdb_id: u64,
    season: u32,
    episode: u32,
) -> (r: String)
    ensures
        r@ == episode_location(base_dir@, show_name@, year, tmdb_id, season, episode),
{
    let dir = season_dir(base_dir, show_name, year, tmdb_id, season);
    let file = make_episode_name(show_name, season, episode);
    text::join_path(dir.as_str(), file.as_str())
}

/// An episode's file below the show directory.
pub fn relative_episode_path(
    show_name: &str,
    year: Option<u16>,
    tmdb_id: u64,
    season: u32,
    episode: u32,
) -> (r: String)
    ensures
        r@ == episode_file(show_name@, year, tmdb_id, season, episode),
{
    let folder = make_folder_name(show_name, year, tmdb_id);
    let season_folder = make_season_name(season);
    let file = make_episode_name(show_name, season, episode);
    let dir = text::join_path(folder.as_str(), season_folder.as_str());
    text::join_path(dir.as_str(), file.as_str())
}

/// Build the season directory path for a show.
pub fn season_dir(
    base_dir: &str,
    show_name: &str,
    year: Option<u16>,
    tmdb_id: u64,
    season: u32,
) -> (r: String)
    ensures
        r@ == season_location(base_dir@, show_name@, year, tmdb_id, season),
{
    let folder = make_folder_name(show_name, year, tmdb_id);
    let season_folder = make_season_name(season);
    let dir = text::join_path(base_dir, folder.as_str());
    text::join_path(dir.as_str(), season_folder.as_str())
}

/// Is a text neither empty nor an absolute path, and free of a separator at its
/// end?
pub open spec fn is_plain_part(part: Seq<char>) -> bool {
    part.len() > 0 && part[0] != '/' && part.last() != '/'
}

proof fn lemma_folder_is_plain(name: Seq<char>, year: Option<u16>, tmdb_id: u64)
    ensures
        is_plain_part(folder_name(name, year, tmdb_id)),
{
    reveal_strlit("]");
    reveal_strlit(" (");
    reveal_strlit(" [tmdbid-");
    let folder = folder_name(name, year, tmdb_id);
    assert(folder.last() == ']');
    if sanitized(name).len() > 0 {
        sanitized_names_are_clean(name, 0);
        assert(folder[0] == sanitized(name)[0]);
    } else {
        assert(folder[0] == ' ');
    }
}

proof fn lemma_join_is_associative(base: Seq<char>, folder: Seq<char>, file: Seq<char>)
    requires
        is_plain_part(folder),
        file.len() > 0,
        file[0] != '/',
    ensures
        text::joined(text::joined(base, folder), file) == text::joined(
            base,
            text::joined(folder, file),
        ),
{
    let inner = text::joined(folder, file);
    assert(inner[0] == folder[0]);
    assert(text::joined(base, folder).last() == folder.last());
    assert(text::joined(text::joined(base, folder), file) =~= text::joined(base, inner));
}

/// The path below the movie directory, put below it, is the whole path.
pub proof fn relative_movie_path_leads_to_the_movie(
    base_dir: Seq<char>,
    title: Seq<char>,
    year: Option<u16>,
    tmdb_id: u64,
)
    ensures
        text::joined(base_dir, movie_file(title, year, tmdb_id)) == movie_location(
            base_dir,
            title,
            year,
            tmdb_id,
        ),
{
    let folder = folder_name(title, year, tmdb_id);
    lemma_folder_is_plain(title, year, tmdb_id);
    assert((folder + ".mkv"@)[0] == folder[0]);
    lemma_join_is_associative(base_dir, folder, folder + ".mkv"@);
}

/// The path below the show directory, put below it, is the whole path.
pub proof fn relative_episode_path_leads_to_the_episode(
    base_dir: Seq<char>,
    show_name: Seq<char>,
    year: Option<u16>,
    tmdb_id: u64,
    season: u32,
    episode: u32,
)
    ensures
        text::joined(base_dir, episode_file(show_name, year, tmdb_id, season, episode))
            == episode_location(base_dir, show_name, year, tmdb_id, season, episode),
{
    let folder = folder_name(show_name, year, tmdb_id);
    let sub = season_name(season);
    let file = episode_name(show_name, season, episode);
    lemma_folder_is_plain(show_name, year, tmdb_id);
    reveal_strlit("Season ");
    assert(sub[0] == 'S');
    lemma_two_digits(season as nat);
    assert(sub.last() == text::two_digits(season as nat).last());
    lemma_episode_name_starts(show_name, season, episode);
    let dir = text::joined(folder, sub);
    lemma_join_is_associative(base_dir, folder, sub);
    assert(dir[0] == folder[0]);
    assert(dir.last() == sub.last());
    lemma_join_is_associative(base_dir, dir, file);
}

/// A number filled up to two digits has digits alone and reads as itself.
proof fn lemma_two_digits(n: nat)
    ensures
        text::two_digits(n).len() >= 2,
        text::all_digits(text::two_digits(n)),
        text::digits_value(text::two_digits(n)) == n,
{
    text::decimal_reads_back(n);
    let d = text::decimal(n);
    let t = text::two_digits(n);
    if d.len() < 2 {
        assert(t =~= seq!['0'] + d);
        assert(t.drop_last() =~= seq!['0']);
        assert(t.drop_last().drop_last() =~= Seq::<char>::empty());
        assert(text::digits_value(t.drop_last()) == 0) by {
            reveal_with_fuel(text::digits_value, 2);
        }
        assert(t.last() == d.last());
        assert(d.drop_last() =~= Seq::<char>::empty());
        assert(text::digits_value(d) == text::digits_value(d.drop_last()) * 10 + (d.last() as nat
            - 48) as nat);
        assert(text::digits_value(d.drop_last()) == 0);
        assert forall|i: int| 0 <= i < t.len() implies text::is_digit(#[trigger] t[i]) by {
            if i > 0 {
                assert(t[i] == d[i - 1]);
            }
        }
    }
}

proof fn lemma_episode_name_starts(show_name: Seq<char>, season: u32, episode: u32)
    ensures
        episode_name(show_name, season, episode).len() > 0,
        episode_name(show_name, season, episode)[0] != '/',
{
    reveal_strlit(" S");
    let file = episode_name(show_name, season, episode);
    if sanitized(show_name).len() > 0 {
        sanitized_names_are_clean(show_name, 0);
        assert(file[0] == sanitized(show_name)[0]);
    } else {
        assert(file[0] == ' ');
    }
}

/// An episode's file stands in the season's directory under the episode's name,
/// whatever characters the show's name holds: the last separator of the path comes
/// between the two.
pub proof fn episodes_stand_in_their_season(
    base_dir: Seq<char>,
    show_name: Seq<char>,
    year: Option<u16>,
    tmdb_id: u64,
    season: u32,
    episode: u32,
)
    ensures
        ({
            let path = episode_location(base_dir, show_name, year, tmdb_id, season, episode);
            let dir = season_location(base_dir, show_name, year, tmdb_id, season);
            &&& text::last_position(path, '/') == Some(dir.len() as int)
            &&& path.take(dir.len() as int) == dir
            &&& path.skip(dir.len() as int + 1) == episode_name(show_name, season, episode)
        }),
{
    let path = episode_location(base_dir, show_name, year, tmdb_id, season, episode);
    let dir = season_location(base_dir, show_name, year, tmdb_id, season);
    let name = episode_name(show_name, season, episode);
    let n = dir.len() as int;
    lemma_two_digits(season as nat);
    reveal_strlit("Season ");
    assert(season_name(season)[0] == 'S');
    assert(dir.last() == text::two_digits(season as nat).last());
    lemma_episode_name_starts(show_name, season, episode);
    assert(path == dir.push('/') + name);
    assert(path.take(n) =~= dir);
    assert(path.skip(n + 1) =~= name);
    assert forall|i: int| n < i < path.len() implies path[i] != '/' by {
        assert(path[i] == name[i - n - 1]);
        lemma_episode_name_is_plain(show_name, season, episode, i - n - 1);
    }
    text::lemma_last_position(path, '/', n);
}

/// No separator stands in the file name of an episode.
proof fn lemma_episode_name_is_plain(
    show_name: Seq<char>,
    season: u32,
    episode: u32,
    i: int,
)
    requires
        0 <= i < episode_name(show_name, season, episode).len(),
    ensures
        episode_name(show_name, season, episode)[i] != '/',
{
    reveal_strlit(" S");
    reveal_strlit("E");
    reveal_strlit(".mkv");
    lemma_two_digits(season as nat);
    lemma_two_digits(episode as nat);
    let show = sanitized(show_name);
    let s2 = text::two_digits(season as nat);
    let e2 = text::two_digits(episode as nat);
    let name = episode_name(show_name, season, episode);
    let a = show.len() as int;
    let b = a + 2 + s2.len();
    let c = b + 1 + e2.len();
    if i < a {
        sanitized_names_are_clean(show_name, i);
        assert(name[i] == show[i]);
    } else if i < a + 2 {
        assert(name[i] == " S"@[i - a]);
    } else if i < b {
        assert(name[i] == s2[i - a - 2]);
    } else if i == b {
        assert(name[i] == 'E');
    } else if i < c {
        assert(name[i] == e2[i - b - 1]);
    } else {
        assert(name[i] == ".mkv"@[i - c]);
    }
}

proof fn lemma_split_at_e(a: Seq<char>, x: Seq<char>, b: Seq<char>, y: Seq<char>)
    requires
        text::all_digits(a),
        text::all_digits(b),
        a + "E"@ + x == b + "E"@ + y,
    ensures
        a == b,
        x == y,
{
    reveal_strlit("E");
    let s = a + "E"@ + x;
    let t = b + "E"@ + y;
    assert(s[a.len() as int] == 'E');
    assert(t[b.len() as int] == 'E');
    if a.len() < b.len() {
        assert(t[a.len() as int] == b[a.len() as int]);
    }
    if b.len() < a.len() {
        assert(s[b.len() as int] == a[b.len() as int]);
    }
    assert(a =~= s.take(a.len() as int));
    assert(b =~= t.take(b.len() as int));
    assert(x =~= s.skip(a.len() as int + 1));
    assert(y =~= t.skip(b.len() as int + 1));
}

proof fn lemma_episode_names_differ(
    head: Seq<char>,
    s: Seq<char>,
    e: Seq<char>,
    t: Seq<char>,
    f: Seq<char>,
    tail: Seq<char>,
)
    requires
        text::all_digits(s),
        text::all_digits(t),
        head + s + "E"@ + e + tail == head + t + "E"@ + f + tail,
    ensures
        s == t,
        e == f,
{
    let x = head + s + "E"@ + e + tail;
    let y = head + t + "E"@ + f + tail;
    let m = head.len() as int;
    let p = s + "E"@ + (e + tail);
    let q = t + "E"@ + (f + tail);
    assert(x =~= head + p);
    assert(y =~= head + q);
    assert(p =~= (head + p).skip(m));
    assert(q =~= (head + q).skip(m));
    lemma_split_at_e(s, e + tail, t, f + tail);
    let u = e + tail;
    let v = f + tail;
    assert(u.len() == e.len() + tail.len() && v.len() == f.len() + tail.len());
    assert(u.take(e.len() as int) =~= e);
    assert(v.take(f.len() as int) =~= f);
}

/// Two episodes of a show never get the same file, in one season or in two.
pub proof fn episode_files_are_distinct(
    base_dir: Seq<char>,
    show_name: Seq<char>,
    year: Option<u16>,
    tmdb_id: u64,
    season: u32,
    episode: u32,
    other_season: u32,
    other_episode: u32,
)
    requires
        episode_location(base_dir, show_name, year, tmdb_id, season, episode) == episode_location(
            base_dir,
            show_name,
            year,
            tmdb_id,
            other_season,
            other_episode,
        ),
    ensures
        season == other_season,
        episode == other_episode,
{
    lemma_two_digits(season as nat);
    lemma_two_digits(other_season as nat);
    lemma_two_digits(episode as nat);
    lemma_two_digits(other_episode as nat);
    episodes_stand_in_their_season(base_dir, show_name, year, tmdb_id, season, episode);
    episodes_stand_in_their_season(
        base_dir,
        show_name,
        year,
        tmdb_id,
        other_season,
        other_episode,
    );
    lemma_episode_names_differ(
        sanitized(show_name) + " S"@,
        text::two_digits(season as nat),
        text::two_digits(episode as nat),
        text::two_digits(other_season as nat),
        text::two_digits(other_episode as nat),
        ".mkv"@,
    );
}

proof fn lemma_number_at_end(s: Seq<char>, x: Seq<char>, t: Seq<char>, y: Seq<char>)
    requires
        text::all_digits(x),
        text::all_digits(y),
        s.len() > 0 && t.len() > 0,
        !text::is_digit(s.last()),
        !text::is_digit(t.last()),
        s + x == t + y,
    ensures
        x == y,
{
    let w = s + x;
    let v = t + y;
    assert(w.len() == s.len() + x.len() && w.len() == t.len() + y.len());
    if x.len() < y.len() {
        let i = s.len() - 1;
        assert(w[i] == s.last());
        assert(v[i] == y[i - t.len()]);
    }
    if y.len() < x.len() {
        let i = t.len() - 1;
        assert(v[i] == t.last());
        assert(w[i] == x[i - s.len()]);
    }
    assert(x =~= w.skip(s.len() as int));
    assert(y =~= v.skip(t.len() as int));
}

/// A folder's name up to the number.
spec fn folder_head(name: Seq<char>, year: Option<u16>) -> Seq<char> {
    match year {
        Some(y) => sanitized(name) + " ("@ + text::decimal(y as nat) + ") [tmdbid-"@,
        None => sanitized(name) + " [tmdbid-"@,
    }
}

/// Two movies or shows with different numbers never share a folder, whatever they
/// are called.
pub proof fn folders_are_distinct(
    name: Seq<char>,
    year: Option<u16>,
    tmdb_id: u64,
    other: Seq<char>,
    other_year: Option<u16>,
    other_id: u64,
)
    requires
        folder_name(name, year, tmdb_id) == folder_name(other, other_year, other_id),
    ensures
        tmdb_id == other_id,
{
    reveal_strlit(") [tmdbid-");
    reveal_strlit(" [tmdbid-");
    reveal_strlit("]");
    let s = folder_head(name, year);
    let t = folder_head(other, other_year);
    let x = text::decimal(tmdb_id as nat);
    let y = text::decimal(other_id as nat);
    text::decimal_reads_back(tmdb_id as nat);
    text::decimal_reads_back(other_id as nat);
    let f = folder_name(name, year, tmdb_id);
    let g = folder_name(other, other_year, other_id);
    assert(f.drop_last() =~= s + x);
    assert(g.drop_last() =~= t + y);
    assert(s.last() == '-');
    assert(t.last() == '-');
    lemma_number_at_end(s, x, t, y);
    text::decimal_is_injective(tmdb_id as nat, other_id as nat);
}

// --- existing episodes ---

/// The episode number of the S##E## pattern whose `E` stands at `e`: between the
/// last `S` before it and the `E` stand one or more digits, and the digits behind
/// the `E` are the episode.
pub open spec fn episode_at(name: Seq<char>, e: int) -> Option<nat> {
    if 0 <= e < name.len() && name[e] == 'E' {
        match text::last_position(name.take(e), 'S') {
            Some(s) => if s + 1 < e && text::all_digits(name.subrange(s + 1, e)) {
                text::parse_digits(
                    name.subrange(e + 1, text::digits_end(name, e + 1)),
                    u32::MAX as nat,
                )
            } else {
                None
            },
            None => None,
        }
    } else {
        None
    }
}

/// The episode number of the first pattern whose `E` stands at `from` or later.
pub open spec fn episode_from(name: Seq<char>, from: int) -> Option<nat>
    decreases name.len() - from,
{
    if from >= name.len() {
        None
    } else if episode_at(name, from) is Some {
        episode_at(name, from)
    } else {
        episode_from(name, from + 1)
    }
}

/// The episode number in a file name: that of the first S##E## pattern anywhere in
/// it.
pub open spec fn episode_in(name: Seq<char>) -> Option<nat> {
    episode_from(name, 0)
}

/// The episode number of the pattern whose `E` stands at `pos`.
fn number_at(chars: &Vec<char>, pos: usize) -> (r: Option<u32>)
    requires
        pos < chars.len(),
    ensures
        match r {
            Some(n) => episode_at(chars@, pos as int) == Some(n as nat),
            None => episode_at(chars@, pos as int) is None,
        },
{
    if chars[pos] != 'E' {
        return None;
    }
    // Walk backwards to find 'S'
    let s_pos: usize = match text::last_position_before(chars, pos, 'S') {
        Some(s_pos) => s_pos,
        None => return None,
    };
    // Verify the season part is numeric (so we don't match random S/E)
    let mut i: usize = s_pos + 1;
    let ghost part = chars@.subrange(s_pos + 1, pos as int);
    while i < pos
        invariant
            s_pos + 1 <= i <= pos,
            pos < chars.len(),
            chars@[pos as int] == 'E',
            text::last_position(chars@.take(pos as int), 'S') == Some(s_pos as int),
            part == chars@.subrange(s_pos + 1, pos as int),
            forall|k: int| s_pos < k < i ==> text::is_digit(#[trigger] chars@[k]),
        decreases pos - i,
    {
        if !text::char_is_digit(chars[i]) {
            assert(part[i - s_pos - 1] == chars@[i as int]);
            assert(!text::all_digits(part));
            return None;
        }
        i = i + 1;
    }
    if s_pos + 1 >= pos {
        return None;
    }
    assert(text::all_digits(part)) by {
        assert forall|k: int| 0 <= k < part.len() implies text::is_digit(#[trigger] part[k]) by {
            assert(part[k] == chars@[s_pos + 1 + k]);
        }
    }
    let end: usize = text::digits_run_end(chars, pos + 1);
    match text::parse_digit_range(chars, pos + 1, end, u32::MAX as u64) {
        Some(n) => Some(n as u32),
        None => None,
    }
}

/// The episode number in a file name.
pub fn episode_number(name: &str) -> (r: Option<u32>)
    ensures
        match r {
            Some(n) => episode_in(name@) == Some(n as nat),
            None => episode_in(name@) is None,
        },
{
    let chars = text::chars_of(name);
    let mut pos: usize = 0;
    while pos < chars.len()
        invariant
            pos <= chars.len(),
            chars@ == name@,
            episode_in(name@) == episode_from(name@, pos as int),
        decreases chars.len() - pos,
    {
        if let Some(n) = number_at(&chars, pos) {
            return Some(n);
        }
        pos = pos + 1;
    }
    None
}

/// A name holds an episode exactly where a pattern stands in it, and the first
/// pattern is the one that counts.
pub proof fn the_first_pattern_counts(name: Seq<char>, e: int)
    requires
        0 <= e < name.len(),
    ensures
        episode_in(name) is None ==> episode_at(name, e) is None,
        episode_at(name, e) is Some && (forall|i: int| 0 <= i < e ==> episode_at(name, i) is None)
            ==> episode_in(name) == episode_at(name, e),
{
    lemma_patterns_from(name, 0, e);
}

proof fn lemma_patterns_from(name: Seq<char>, from: int, e: int)
    requires
        0 <= from <= e < name.len(),
    ensures
        episode_from(name, from) is None ==> episode_at(name, e) is None,
        episode_at(name, e) is Some && (forall|i: int|
            from <= i < e ==> episode_at(name, i) is None) ==> episode_from(name, from)
            == episode_at(name, e),
    decreases e - from,
{
    if from < e {
        lemma_patterns_from(name, from + 1, e);
    }
}

/// The highest episode number in some file names, 0 where there is none.
pub open spec fn highest_in(names: Seq<Seq<char>>) -> nat
    decreases names.len(),
{
    if names.len() == 0 {
        0
    } else {
        let before = highest_in(names.drop_last());
        match episode_in(names.last()) {
            Some(n) => if n > before {
                n
            } else {
                before
            },
            None => before,
        }
    }
}

/// The highest episode number in some file names, 0 where there is none.
pub fn highest_episode(names: &Vec<String>) -> (r: u32)
    ensures
        r == highest_in(names.deep_view()),
{
    let ghost models = names.deep_view();
    let mut max_episode: u32 = 0;
    let mut i: usize = 0;
    while i < names.len()
        invariant
            i <= names.len(),
            models == names.deep_view(),
            max_episode == highest_in(models.take(i as int)),
        decreases names.len() - i,
    {
        assert(models.take(i + 1).drop_last() =~= models.take(i as int));
        assert(models.take(i + 1).last() == names[i as int]@);
        if let Some(n) = episode_number(names[i].as_str()) {
            if n > max_episode {
                max_episode = n;
            }
        }
        i = i + 1;
    }
    assert(models.take(i as int) =~= models);
    max_episode
}

/// Looks through the file names of a season directory and returns the next
/// episode number (i.e. highest existing episode + 1). Returns 1 if there are no
/// recognisable episodes.
pub fn guess_next_episode(names: &Vec<String>) -> (r: u32)
    requires
        highest_in(names.deep_view()) < u32::MAX,
    ensures
        r == highest_in(names.deep_view()) + 1,
{
    highest_episode(names) + 1
}

/// No file name holds a higher number than the highest.
pub proof fn highest_bounds_every_name(names: Seq<Seq<char>>, i: int)
    requires
        0 <= i < names.len(),
    ensures
        episode_in(names[i]) matches Some(n) ==> n <= highest_in(names),
    decreases names.len(),
{
    if i < names.len() - 1 {
        highest_bounds_every_name(names.drop_last(), i);
    }
}

/// A run of digits ends no later than at a character that is none, so what
/// follows that character does not matter.
proof fn lemma_digits_end_in_prefix(s: Seq<char>, k: int, from: int)
    requires
        0 <= from <= k < s.len(),
        !text::is_digit(s[k]),
    ensures
        text::digits_end(s, from) == text::digits_end(s.take(k), from),
        text::digits_end(s, from) <= k,
    decreases k - from,
{
    if from < k && text::is_digit(s[from]) {
        lemma_digits_end_in_prefix(s, k, from + 1);
    }
}

proof fn lemma_pattern_in_prefix(s: Seq<char>, k: int, e: int)
    requires
        0 <= e < k < s.len(),
        !text::is_digit(s[k]),
    ensures
        episode_at(s, e) == episode_at(s.take(k), e),
{
    let p = s.take(k);
    assert(s.take(e) =~= p.take(e));
    if s[e] == 'E' {
        lemma_digits_end_in_prefix(s, k, e + 1);
        let end = text::digits_end(s, e + 1);
        text::lemma_digits_end(s, e + 1);
        assert(s.subrange(e + 1, end) =~= p.subrange(e + 1, end));
        if let Some(at) = text::last_position(s.take(e), 'S') {
            if at + 1 < e {
                lemma_last_position_in_range(s.take(e), 'S');
                assert(s.subrange(at + 1, e) =~= p.subrange(at + 1, e));
            }
        }
    }
}

proof fn lemma_last_position_in_range(s: Seq<char>, c: char)
    ensures
        text::last_position(s, c) matches Some(i) ==> 0 <= i < s.len() && s[i] == c,
    decreases s.len(),
{
    if s.len() > 0 {
        lemma_last_position_in_range(s.drop_last(), c);
    }
}

/// The file name of an episode is recognised, and holds the episode's number, for
/// every show in whose sanitized name no S##E## pattern stands.
pub proof fn episode_names_are_recognised(show_name: Seq<char>, season: u32, episode: u32)
    requires
        episode_in(sanitized(show_name)) is None,
    ensures
        episode_in(episode_name(show_name, season, episode)) == Some(episode as nat),
{
    let show = sanitized(show_name);
    let s2 = text::two_digits(season as nat);
    let e2 = text::two_digits(episode as nat);
    let name = episode_name(show_name, season, episode);
    reveal_strlit(" S");
    reveal_strlit("E");
    reveal_strlit(".mkv");
    lemma_two_digits(season as nat);
    lemma_two_digits(episode as nat);
    let k = show.len() as int;
    let s = k + 1;
    let e = s + 1 + s2.len() as int;
    let end = e + 1 + e2.len() as int;
    assert(name[k] == ' ');
    assert(name[s] == 'S');
    assert(name[e] == 'E');
    assert(name[end] == '.');
    assert forall|i: int| s < i < e implies name[i] == s2[i - s - 1] && text::is_digit(
        #[trigger] name[i],
    ) by {
        assert(name[i] == s2[i - s - 1]);
    }
    assert forall|i: int| e < i < end implies name[i] == e2[i - e - 1] && text::is_digit(
        #[trigger] name[i],
    ) by {
        assert(name[i] == e2[i - e - 1]);
    }
    assert(name.take(k) =~= show);
    assert forall|i: int| 0 <= i < e implies episode_at(name, i) is None by {
        if i < k {
            lemma_pattern_in_prefix(name, k, i);
            the_first_pattern_counts(show, i);
        } else if s < i {
            assert(text::is_digit(name[i]));
        }
    }
    let head = name.take(e);
    assert forall|i: int| s < i < head.len() implies head[i] != 'S' by {
        assert(head[i] == name[i]);
        assert(text::is_digit(name[i]));
    }
    text::lemma_last_position(head, 'S', s);
    assert(name.subrange(s + 1, e) =~= s2);
    text::lemma_digits_until(name, e + 1, end);
    assert(name.subrange(e + 1, end) =~= e2);
    the_first_pattern_counts(name, e);
}

/// After an episode has been written, a later guess in its season directory
/// comes behind it, whatever else stands there.
pub proof fn written_episodes_are_not_guessed_again(
    names: Seq<Seq<char>>,
    i: int,
    show_name: Seq<char>,
    season: u32,
    episode: u32,
)
    requires
        0 <= i < names.len(),
        names[i] == episode_name(show_name, season, episode),
        episode_in(sanitized(show_name)) is None,
    ensures
        highest_in(names) + 1 > episode,
{
    episode_names_are_recognised(show_name, season, episode);
    highest_bounds_every_name(names, i);
}

/// Of a name, exactly the characters that no file name may hold are left out: of two
/// names in a row, first those of the one and after them those of the other stay.
pub proof fn only_forbidden_characters_are_left_out(a: Seq<char>, c: char)
    ensures
        sanitized(Seq::empty()).len() == 0,
        c == '/' || c == '\\' || c == ':' || c == '*' || c == '?' || c == '"' || c == '<' || c == '>'
            || c == '|' ==> sanitized(a.push(c)) == sanitized(a),
        !(c == '/' || c == '\\' || c == ':' || c == '*' || c == '?' || c == '"' || c == '<' || c
            == '>' || c == '|') ==> sanitized(a.push(c)) == sanitized(a).push(c),
{
    reveal(Seq::filter);
    assert(a.push(c).drop_last() =~= a);
}

/// A movie below a directory lies in a folder and a file of its name, each with the
/// year and the TMDB number, and an episode in the folder of its show and season,
/// with the numbers of both in its name.
pub proof fn media_are_placed_by_their_names(
    dir: Seq<char>,
    name: Seq<char>,
    year: u16,
    id: u64,
    season: u32,
    episode: u32,
)
    ensures
        ({
            let clean = sanitized(name);
            let undated = clean + " [tmdbid-"@ + text::decimal(id as nat) + "]"@;
            let dated = clean + " ("@ + text::decimal(year as nat) + ") [tmdbid-"@ + text::decimal(
                id as nat,
            ) + "]"@;
            &&& folder_name(name, Some(year), id) == dated
            &&& folder_name(name, None, id) == undated
            &&& movie_location(dir, name, Some(year), id) == text::joined(
                text::joined(dir, dated),
                dated + ".mkv"@,
            )
            &&& movie_location(dir, name, None, id) == text::joined(
                text::joined(dir, undated),
                undated + ".mkv"@,
            )
            &&& episode_location(dir, name, Some(year), id, season, episode) == text::joined(
                text::joined(text::joined(dir, dated), "Season "@ + text::two_digits(season as nat)),
                clean + " S"@ + text::two_digits(season as nat) + "E"@ + text::two_digits(
                    episode as nat,
                ) + ".mkv"@,
            )
        }),
{
}

/// The highest episode is that of one of the names, unless no name holds any.
pub proof fn the_highest_episode_is_there(names: Seq<Seq<char>>)
    ensures
        highest_in(names) == 0 || exists|i: int|
            0 <= i < names.len() && episode_in(#[trigger] names[i]) == Some(highest_in(names)),
    decreases names.len(),
{
    if names.len() > 0 {
        let before = names.drop_last();
        the_highest_episode_is_there(before);
        let last = names[names.len() - 1];
        assert(last == names.last());
        if highest_in(names) == highest_in(before) && highest_in(before) != 0 {
            let i = choose|i: int|
                0 <= i < before.len() && episode_in(#[trigger] before[i]) == Some(
                    highest_in(before),
                );
            assert(names[i] == before[i]);
        }
    }
}

/// An `S` with digits and an `E` with digits behind it name an episode by the digits
/// behind the `E`, however many there are of either.
pub proof fn seasons_and_episodes_name_an_episode(
    before: Seq<char>,
    season: Seq<char>,
    episode: Seq<char>,
    rest: Seq<char>,
)
    requires
        season.len() > 0,
        text::all_digits(season),
        episode.len() > 0,
        text::all_digits(episode),
        rest.len() > 0,
        !('0' <= rest[0] && rest[0] <= '9'),
        text::digits_value(episode) <= u32::MAX,
    ensures
        episode_at(
            before.push('S') + season.push('E') + episode + rest,
            before.len() as int + 1 + season.len(),
        ) == Some(text::digits_value(episode)),
{
    let name = before.push('S') + season.push('E') + episode + rest;
    let s = before.len() as int;
    let e = s + 1 + season.len();
    let end = e + 1 + episode.len();
    let head = name.take(e);
    assert(name[e] == 'E');
    assert forall|i: int| s < i < head.len() implies head[i] != 'S' by {
        assert(head[i] == season[i - s - 1]);
        assert(text::is_digit(season[i - s - 1]));
    }
    text::lemma_last_position(head, 'S', s);
    assert(name.subrange(s + 1, e) =~= season);
    assert forall|i: int| e + 1 <= i < end implies text::is_digit(#[trigger] name[i]) by {
        assert(name[i] == episode[i - e - 1]);
    }
    assert(name[end] == rest[0]);
    text::lemma_digits_until(name, e + 1, end);
    assert(name.subrange(e + 1, end) =~= episode);
}

/// A name holds an episode only where an `E` stands behind an `S` with nothing but
/// digits between them, at least one, and at least one digit behind it.
pub proof fn only_such_names_hold_an_episode(name: Seq<char>, e: int)
    requires
        episode_at(name, e) is Some,
    ensures
        0 <= e < name.len() - 1,
        name[e] == 'E',
        '0' <= name[e + 1] && name[e + 1] <= '9',
        exists|s: int|
            0 <= s < e - 1 && name[s] == 'S' && text::all_digits(#[trigger] name.subrange(s + 1, e)),
{
    let head = name.take(e);
    let s = text::last_position(head, 'S')->0;
    lemma_last_position_in_range(head, 'S');
    assert(head[s] == name[s]);
    text::lemma_digits_end(name, e + 1);
    let found = name.subrange(e + 1, text::digits_end(name, e + 1));
    assert(text::is_digit(found[0]));
    assert(text::all_digits(name.subrange(s + 1, e)));
}

} // verus!
