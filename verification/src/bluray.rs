//! Blu-ray discs: what the disc library tells of them, reading a title, and the
//! reports for the terminal.
use vstd::prelude::*;

use crate::{list, text};

verus! {

/// Ticks of the clock that Blu-ray times are counted in, per second.
pub const TICKS_PER_SECOND: u64 = 90_000;

/// The most bytes that are read from a title at once.
pub const READ_CHUNK: u64 = 10_000_000;

/// One stream of a clip.
#[derive(Clone, Copy, Debug)]
pub struct BdStream {
    pub coding_type: u8,
    pub format: u8,
    pub rate: u8,
    /// Language code, ended by a zero byte.
    pub lang: [u8; 4],
    pub pid: u16,
}

impl DeepView for BdStream {
    type V = BdStream;

    open spec fn deep_view(&self) -> BdStream {
        *self
    }
}

/// One chapter of a title; times in ticks.
#[derive(Clone, Copy, Debug, PartialEq, Eq, Structural)]
pub struct BdChapter {
    pub idx: u32,
    pub start: u64,
    pub duration: u64,
    pub clip_ref: u32,
}

/// One clip of a title; times in ticks.
#[derive(Debug)]
pub struct BdClip {
    pub pkt_count: u32,
    pub in_time: u64,
    pub out_time: u64,
    pub video_streams: Vec<BdStream>,
    pub audio_streams: Vec<BdStream>,
    pub pg_streams: Vec<BdStream>,
    pub sec_audio_streams: Vec<BdStream>,
    pub sec_video_streams: Vec<BdStream>,
}

/// One title of a disc; times in ticks. The counts are the disc's own; the lists
/// hold what could be read.
#[derive(Debug)]
pub struct BdTitle {
    pub idx: u32,
    pub playlist: u32,
    pub duration: u64,
    pub angle_count: u8,
    pub chapter_count: u32,
    pub clip_count: u32,
    pub mark_count: u32,
    pub chapters: Vec<BdChapter>,
    pub clips: Vec<BdClip>,
}

// --- reading a title ---

/// How far the reading of a title has come.
#[derive(Clone, Copy, Debug, PartialEq, Eq, Structural)]
pub struct TitleRead {
    pub title_size: u64,
    pub total: u64,
}

/// How many bytes to ask for at a position.
pub open spec fn read_size(title_size: int, position: int) -> int {
    if title_size - position < READ_CHUNK {
        title_size - position
    } else {
        READ_CHUNK as int
    }
}

/// How many bytes are read from a position on when every read gives all that is
/// asked for.
pub open spec fn bytes_from(title_size: int, position: int) -> int
    decreases title_size - position,
{
    let size = read_size(title_size, position);
    if position > title_size || size < READ_CHUNK {
        size
    } else {
        size + bytes_from(title_size, position + size)
    }
}

impl TitleRead {
    pub fn new(title_size: u64) -> (r: Self)
        ensures
            r == (TitleRead { title_size, total: 0 }),
    {
        TitleRead { title_size, total: 0 }
    }

    /// How many bytes to ask for at a position.
    pub fn next_size(&self, position: u64) -> (r: i32)
        requires
            position <= self.title_size,
        ensures
            r == read_size(self.title_size as int, position as int),
            0 <= r <= READ_CHUNK,
    {
        let left: u64 = self.title_size - position;
        if left < READ_CHUNK {
            left as i32
        } else {
            READ_CHUNK as i32
        }
    }

    /// Counts what a read of `size` bytes gave; true where it was the last one.
    pub fn after_read(&mut self, size: i32, got: i32) -> (done: bool)
        requires
            0 <= got <= size,
            old(self).total + got <= u64::MAX,
        ensures
            *final(self) == (TitleRead { total: (old(self).total + got) as u64, ..*old(self) }),
            done == (got < READ_CHUNK || size == 0),
    {
        self.total = self.total + got as u64;
        (got as u64) < READ_CHUNK || size == 0
    }
}

/// Reading in chunks gives the whole title from where it starts.
pub proof fn reading_covers_the_title(title_size: int, position: int)
    requires
        0 <= position <= title_size,
    ensures
        bytes_from(title_size, position) == title_size - position,
    decreases title_size - position,
{
    let size = read_size(title_size, position);
    if size >= READ_CHUNK {
        reading_covers_the_title(title_size, position + size);
    }
}

// --- reports ---

/// Ticks as hours, minutes and seconds.
pub open spec fn duration_text(ticks: u64) -> Seq<char> {
    text::clock((ticks / TICKS_PER_SECOND) as nat)
}

fn push_duration(line: &mut String, ticks: u64)
    ensures
        final(line)@ == old(line)@ + duration_text(ticks),
{
    text::push_clock(line, ticks / TICKS_PER_SECOND);
}

/// Ticks as hours, minutes and seconds.
pub fn format_duration(ticks: u64) -> (r: String)
    ensures
        r@ == duration_text(ticks),
{
    let mut line = String::new();
    push_duration(&mut line, ticks);
    assert(line@ =~= duration_text(ticks));
    line
}

/// The language code of a stream.
pub open spec fn lang_text(lang: Seq<u8>) -> Seq<char> {
    match text::decoded(text::before_zero(lang)) {
        Some(code) => code,
        None => "???"@,
    }
}

/// The language code of a stream.
pub fn lang_str(lang: &[u8; 4]) -> (r: String)
    ensures
        r@ == lang_text(lang@),
{
    match text::decode_before_zero(lang.as_slice()) {
        Some(code) => code,
        None => "???".to_owned(),
    }
}

/// The line about a title.
pub open spec fn title_line(t: BdTitle) -> Seq<char> {
    "Title "@ + text::padded(text::decimal(t.idx as nat), 3, ' ') + "  playlist="@ + text::padded(
        text::decimal(t.playlist as nat),
        5,
        '0',
    ) + "  duration="@ + duration_text(t.duration) + "  angles="@ + text::decimal(
        t.angle_count as nat,
    ) + "  chapters="@ + text::decimal(t.chapter_count as nat) + "  clips="@ + text::decimal(
        t.clip_count as nat,
    ) + "  marks="@ + text::decimal(t.mark_count as nat)
}

fn title_report(t: &BdTitle) -> (r: String)
    ensures
        r@ == title_line(*t),
{
    let mut line = "Title ".to_owned();
    text::push_padded_decimal(&mut line, t.idx as u64, 3, ' ');
    line.append("  playlist=");
    text::push_padded_decimal(&mut line, t.playlist as u64, 5, '0');
    line.append("  duration=");
    push_duration(&mut line, t.duration);
    line.append("  angles=");
    text::push_decimal(&mut line, t.angle_count as u64);
    line.append("  chapters=");
    text::push_decimal(&mut line, t.chapter_count as u64);
    line.append("  clips=");
    text::push_decimal(&mut line, t.clip_count as u64);
    line.append("  marks=");
    text::push_decimal(&mut line, t.mark_count as u64);
    line
}

/// The line about a chapter.
pub open spec fn chapter_line(ch: BdChapter) -> Seq<char> {
    "  Chapter "@ + text::padded(text::decimal(ch.idx as nat), 3, ' ') + "  start="@
        + duration_text(ch.start) + "  duration="@ + duration_text(ch.duration) + "  clip="@
        + text::decimal(ch.clip_ref as nat)
}

/// The lines about some chapters.
pub open spec fn chapter_lines(chapters: Seq<BdChapter>) -> Seq<Seq<char>> {
    Seq::new(chapters.len(), |i: int| chapter_line(chapters[i]))
}

fn chapter_reports(chapters: &Vec<BdChapter>) -> (r: Vec<String>)
    ensures
        r.deep_view() == chapter_lines(chapters@),
{
    let mut lines: Vec<String> = list::empty();
    let mut i: usize = 0;
    while i < chapters.len()
        invariant
            i <= chapters.len(),
            lines.deep_view() == chapter_lines(chapters@).take(i as int),
        decreases chapters.len() - i,
    {
        let ch = chapters[i];
        let mut line = "  Chapter ".to_owned();
        text::push_padded_decimal(&mut line, ch.idx as u64, 3, ' ');
        line.append("  start=");
        push_duration(&mut line, ch.start);
        line.append("  duration=");
        push_duration(&mut line, ch.duration);
        line.append("  clip=");
        text::push_decimal(&mut line, ch.clip_ref as u64);
        list::push(&mut lines, line);
        assert(lines.deep_view() =~= chapter_lines(chapters@).take(i + 1));
        i = i + 1;
    }
    assert(chapter_lines(chapters@).take(i as int) =~= chapter_lines(chapters@));
    lines
}

/// What a stream is used for.
#[derive(Clone, Copy, Debug, PartialEq, Eq, Structural)]
pub enum StreamRole {
    Video,
    Audio,
    Subtitle,
    SecondaryAudio,
    SecondaryVideo,
}

/// A codec number.
pub open spec fn codec_text(coding_type: u8) -> Seq<char> {
    text::padded(text::hexadecimal(coding_type as nat), 2, '0')
}

/// A packet identifier.
pub open spec fn pid_text(pid: u16) -> Seq<char> {
    text::padded(text::hexadecimal(pid as nat), 4, '0')
}

/// The line about a stream.
pub open spec fn stream_line(role: StreamRole, s: BdStream) -> Seq<char> {
    match role {
        StreamRole::Video => "    Video  codec=0x"@ + codec_text(s.coding_type) + "  format="@
            + text::decimal(s.format as nat) + "  rate="@ + text::decimal(s.rate as nat)
            + "  pid=0x"@ + pid_text(s.pid),
        StreamRole::Audio => "    Audio  codec=0x"@ + codec_text(s.coding_type) + "  lang="@
            + lang_text(s.lang@) + "  pid=0x"@ + pid_text(s.pid),
        StreamRole::Subtitle => "    Subtitle  lang="@ + lang_text(s.lang@) + "  pid=0x"@
            + pid_text(s.pid),
        StreamRole::SecondaryAudio => "    SecAudio  codec=0x"@ + codec_text(s.coding_type)
            + "  lang="@ + lang_text(s.lang@) + "  pid=0x"@ + pid_text(s.pid),
        StreamRole::SecondaryVideo => "    SecVideo  codec=0x"@ + codec_text(s.coding_type)
            + "  pid=0x"@ + pid_text(s.pid),
    }
}

fn stream_report(role: StreamRole, s: &BdStream) -> (r: String)
    ensures
        r@ == stream_line(role, *s),
{
    let mut line: String;
    match role {
        StreamRole::Video => {
            line = "    Video  codec=0x".to_owned();
            text::push_padded_hex(&mut line, s.coding_type as u64, 2);
            line.append("  format=");
            text::push_decimal(&mut line, s.format as u64);
            line.append("  rate=");
            text::push_decimal(&mut line, s.rate as u64);
        },
        StreamRole::Audio => {
            line = "    Audio  codec=0x".to_owned();
            text::push_padded_hex(&mut line, s.coding_type as u64, 2);
            line.append("  lang=");
            line.append(lang_str(&s.lang).as_str());
        },
        StreamRole::Subtitle => {
            line = "    Subtitle  lang=".to_owned();
            line.append(lang_str(&s.lang).as_str());
        },
        StreamRole::SecondaryAudio => {
            line = "    SecAudio  codec=0x".to_owned();
            text::push_padded_hex(&mut line, s.coding_type as u64, 2);
            line.append("  lang=");
            line.append(lang_str(&s.lang).as_str());
        },
        StreamRole::SecondaryVideo => {
            line = "    SecVideo  codec=0x".to_owned();
            text::push_padded_hex(&mut line, s.coding_type as u64, 2);
        },
    }
    line.append("  pid=0x");
    text::push_padded_hex(&mut line, s.pid as u64, 4);
    line
}

/// The lines about some streams.
pub open spec fn stream_lines(role: StreamRole, streams: Seq<BdStream>) -> Seq<Seq<char>> {
    Seq::new(streams.len(), |i: int| stream_line(role, streams[i]))
}

fn stream_reports(role: StreamRole, streams: &Vec<BdStream>) -> (r: Vec<String>)
    ensures
        r.deep_view() == stream_lines(role, streams@),
{
    let mut lines: Vec<String> = list::empty();
    let mut i: usize = 0;
    while i < streams.len()
        invariant
            i <= streams.len(),
            lines.deep_view() == stream_lines(role, streams@).take(i as int),
        decreases streams.len() - i,
    {
        list::push(&mut lines, stream_report(role, &streams[i]));
        assert(lines.deep_view() =~= stream_lines(role, streams@).take(i + 1));
        i = i + 1;
    }
    assert(stream_lines(role, streams@).take(i as int) =~= stream_lines(role, streams@));
    lines
}

/// The first line about a clip.
pub open spec fn clip_line(i: int, clip: BdClip) -> Seq<char> {
    "  Clip "@ + text::padded(text::decimal(i as nat), 3, ' ') + "  in="@ + duration_text(
        clip.in_time,
    ) + "  out="@ + duration_text(clip.out_time) + "  pkts="@ + text::decimal(clip.pkt_count as nat)
}

/// The lines about a clip and its streams.
pub open spec fn clip_lines(i: int, clip: BdClip) -> Seq<Seq<char>> {
    seq![clip_line(i, clip)] + stream_lines(StreamRole::Video, clip.video_streams@) + stream_lines(
        StreamRole::Audio,
        clip.audio_streams@,
    ) + stream_lines(StreamRole::Subtitle, clip.pg_streams@) + stream_lines(
        StreamRole::SecondaryAudio,
        clip.sec_audio_streams@,
    ) + stream_lines(StreamRole::SecondaryVideo, clip.sec_video_streams@)
}

fn clip_reports(i: usize, clip: &BdClip) -> (r: Vec<String>)
    ensures
        r.deep_view() == clip_lines(i as int, *clip),
{
    let mut line = "  Clip ".to_owned();
    text::push_padded_decimal(&mut line, i as u64, 3, ' ');
    line.append("  in=");
    push_duration(&mut line, clip.in_time);
    line.append("  out=");
    push_duration(&mut line, clip.out_time);
    line.append("  pkts=");
    text::push_decimal(&mut line, clip.pkt_count as u64);
    let mut lines: Vec<String> = list::single(line);
    list::extend(&mut lines, stream_reports(StreamRole::Video, &clip.video_streams));
    list::extend(&mut lines, stream_reports(StreamRole::Audio, &clip.audio_streams));
    list::extend(&mut lines, stream_reports(StreamRole::Subtitle, &clip.pg_streams));
    list::extend(&mut lines, stream_reports(StreamRole::SecondaryAudio, &clip.sec_audio_streams));
    list::extend(&mut lines, stream_reports(StreamRole::SecondaryVideo, &clip.sec_video_streams));
    lines
}

/// The lines about each clip of a title.
pub open spec fn lines_of_clip(clips: Seq<BdClip>) -> spec_fn(int) -> Seq<Seq<char>> {
    |i: int| clip_lines(i, clips[i])
}

/// All lines about a title, with an empty one at the end.
pub open spec fn title_lines(t: BdTitle) -> Seq<Seq<char>> {
    seq![title_line(t)] + chapter_lines(t.chapters@) + list::flat(
        t.clips@.len() as int,
        lines_of_clip(t.clips@),
    ) + seq![Seq::<char>::empty()]
}

/// All lines about a title, with an empty one at the end.
pub fn title_reports(t: &BdTitle) -> (r: Vec<String>)
    ensures
        r.deep_view() == title_lines(*t),
{
    let mut lines: Vec<String> = list::single(title_report(t));
    list::extend(&mut lines, chapter_reports(&t.chapters));
    let ghost head = lines.deep_view();
    let mut i: usize = 0;
    assert(head =~= head + list::flat(0, lines_of_clip(t.clips@)));
    while i < t.clips.len()
        invariant
            i <= t.clips.len(),
            lines.deep_view() == head + list::flat(i as int, lines_of_clip(t.clips@)),
        decreases t.clips.len() - i,
    {
        list::extend(&mut lines, clip_reports(i, &t.clips[i]));
        assert(lines.deep_view() =~= head + list::flat(i + 1, lines_of_clip(t.clips@)));
        i = i + 1;
    }
    list::push(&mut lines, String::new());
    assert(lines.deep_view() =~= title_lines(*t));
    lines
}

/// The lines about each title of a disc.
pub open spec fn lines_of_title(titles: Seq<BdTitle>) -> spec_fn(int) -> Seq<Seq<char>> {
    |i: int| title_lines(titles[i])
}

/// The listing of a disc: its main title, then each title that could be read.
pub open spec fn listing(main_title: i32, titles: Seq<BdTitle>) -> Seq<Seq<char>> {
    seq!["Main title: "@ + text::integer_text(main_title as int), Seq::<char>::empty()]
        + list::flat(titles.len() as int, lines_of_title(titles))
}

/// The listing of a disc: its main title, then each title that could be read.
pub fn list_titles(main_title: i32, titles: &Vec<BdTitle>) -> (r: Vec<String>)
    ensures
        r.deep_view() == listing(main_title, titles@),
{
    let mut line = "Main title: ".to_owned();
    text::push_integer(&mut line, main_title);
    let mut lines: Vec<String> = list::single(line);
    list::push(&mut lines, String::new());
    let ghost head = lines.deep_view();
    assert(head =~= seq![
        "Main title: "@ + text::integer_text(main_title as int),
        Seq::<char>::empty(),
    ]);
    let mut i: usize = 0;
    assert(head =~= head + list::flat(0, lines_of_title(titles@)));
    while i < titles.len()
        invariant
            i <= titles.len(),
            lines.deep_view() == head + list::flat(i as int, lines_of_title(titles@)),
        decreases titles.len() - i,
    {
        list::extend(&mut lines, title_reports(&titles[i]));
        assert(lines.deep_view() =~= head + list::flat(i + 1, lines_of_title(titles@)));
        i = i + 1;
    }
    lines
}

/// What the disc library tells of a disc as a whole. A number that stands for a
/// yes or no is a yes unless it is 0.
#[derive(Debug)]
pub struct BdDiscInfo {
    pub disc_name: Option<String>,
    pub udf_volume_id: Option<String>,
    pub disc_id: Vec<u8>,
    pub first_play_supported: u8,
    pub top_menu_supported: u8,
    pub num_hdmv_titles: u32,
    pub num_bdj_titles: u32,
    pub num_unsupported_titles: u32,
    pub bdj_detected: u8,
    pub libjvm_detected: u8,
    pub bdj_handled: u8,
    pub bdj_org_id: Vec<u8>,
    pub bdj_disc_id: Vec<u8>,
    pub aacs_detected: u8,
    pub libaacs_detected: u8,
    pub aacs_mkbv: i32,
    pub aacs_handled: u8,
    pub aacs_error_code: i32,
    pub bdplus_detected: u8,
    pub libbdplus_detected: u8,
    pub bdplus_gen: u8,
    pub bdplus_date: u32,
    pub bdplus_handled: u8,
    pub initial_output_mode_preference: u8,
    pub content_exist_3d: u8,
    pub video_format: u8,
    pub frame_rate: u8,
    pub initial_dynamic_range_type: u8,
    pub provider_data: Vec<u8>,
}

/// A text that may be missing.
pub open spec fn optional_text(s: Option<String>) -> Seq<char> {
    match s {
        Some(s) => s@,
        None => Seq::empty(),
    }
}

/// A yes or no.
pub open spec fn flag_text(flag: u8) -> Seq<char> {
    if flag != 0 {
        "true"@
    } else {
        "false"@
    }
}

/// Two hexadecimal digits for each byte.
pub open spec fn hex_pairs(bytes: Seq<u8>) -> Seq<char>
    decreases bytes.len(),
{
    if bytes.len() == 0 {
        Seq::empty()
    } else {
        hex_pairs(bytes.drop_last()) + text::padded(text::hexadecimal(bytes.last() as nat), 2, '0')
    }
}

fn flag_line(label: &str, flag: u8) -> (r: String)
    ensures
        r@ == label@ + flag_text(flag),
{
    let mut line = label.to_owned();
    if flag != 0 {
        line.append("true");
    } else {
        line.append("false");
    }
    line
}

fn number_line(label: &str, n: u64) -> (r: String)
    ensures
        r@ == label@ + text::decimal(n as nat),
{
    let mut line = label.to_owned();
    text::push_decimal(&mut line, n);
    line
}

fn integer_line(label: &str, n: i32) -> (r: String)
    ensures
        r@ == label@ + text::integer_text(n as int),
{
    let mut line = label.to_owned();
    text::push_integer(&mut line, n);
    line
}

fn text_line(label: &str, value: &Option<String>) -> (r: String)
    ensures
        r@ == label@ + optional_text(*value),
{
    let mut line = label.to_owned();
    if let Some(value) = value {
        line.append(value.as_str());
    }
    assert(line@ =~= label@ + optional_text(*value));
    line
}

fn hex_line(label: &str, bytes: &Vec<u8>) -> (r: String)
    ensures
        r@ == label@ + hex_pairs(bytes@),
{
    let mut line = label.to_owned();
    let mut i: usize = 0;
    assert(line@ =~= label@ + hex_pairs(bytes@.take(0)));
    while i < bytes.len()
        invariant
            i <= bytes.len(),
            line@ == label@ + hex_pairs(bytes@.take(i as int)),
        decreases bytes.len() - i,
    {
        text::push_padded_hex(&mut line, bytes[i] as u64, 2);
        assert(bytes@.take(i + 1).drop_last() =~= bytes@.take(i as int));
        assert(line@ =~= label@ + hex_pairs(bytes@.take(i + 1)));
        i = i + 1;
    }
    assert(bytes@.take(i as int) =~= bytes@);
    line
}

/// The lines about the disc itself.
pub open spec fn disc_lines(info: BdDiscInfo) -> Seq<Seq<char>> {
    seq![
        "Blu-Ray Info:"@,
        "  Volume Identifier: "@ + optional_text(info.udf_volume_id),
        "  Disc Name: "@ + optional_text(info.disc_name),
        "  Disc Id: "@ + hex_pairs(info.disc_id@),
        "  First Play supported: "@ + flag_text(info.first_play_supported),
        "  Top menu supported: "@ + flag_text(info.top_menu_supported),
        "  HDMV titles: "@ + text::decimal(info.num_hdmv_titles as nat),
        "  BD-J titles: "@ + text::decimal(info.num_bdj_titles as nat),
        "  Unsupported titles: "@ + text::decimal(info.num_unsupported_titles as nat),
    ]
}

fn disc_reports(info: &BdDiscInfo) -> (r: Vec<String>)
    ensures
        r.deep_view() == disc_lines(*info),
{
    let mut lines: Vec<String> = list::single("Blu-Ray Info:".to_owned());
    list::push(&mut lines, text_line("  Volume Identifier: ", &info.udf_volume_id));
    list::push(&mut lines, text_line("  Disc Name: ", &info.disc_name));
    list::push(&mut lines, hex_line("  Disc Id: ", &info.disc_id));
    list::push(&mut lines, flag_line("  First Play supported: ", info.first_play_supported));
    list::push(&mut lines, flag_line("  Top menu supported: ", info.top_menu_supported));
    list::push(&mut lines, number_line("  HDMV titles: ", info.num_hdmv_titles as u64));
    list::push(&mut lines, number_line("  BD-J titles: ", info.num_bdj_titles as u64));
    list::push(
        &mut lines,
        number_line("  Unsupported titles: ", info.num_unsupported_titles as u64),
    );
    assert(lines.deep_view() =~= disc_lines(*info));
    lines
}

/// The lines about Java menus; details only where there are any.
pub open spec fn bdj_lines(info: BdDiscInfo) -> Seq<Seq<char>> {
    let head = seq!["BD-J:"@, "  BD-J detected: "@ + flag_text(info.bdj_detected)];
    if info.bdj_detected != 0 {
        head + seq![
            "  Java VM found: "@ + flag_text(info.libjvm_detected),
            "  BD-J handled: "@ + flag_text(info.bdj_handled),
            "  BD-J organization id: "@ + hex_pairs(info.bdj_org_id@),
            "  BD-J disc id: "@ + hex_pairs(info.bdj_disc_id@),
        ]
    } else {
        head
    }
}

fn bdj_reports(info: &BdDiscInfo) -> (r: Vec<String>)
    ensures
        r.deep_view() == bdj_lines(*info),
{
    let mut lines: Vec<String> = list::single("BD-J:".to_owned());
    list::push(&mut lines, flag_line("  BD-J detected: ", info.bdj_detected));
    if info.bdj_detected != 0 {
        list::push(&mut lines, flag_line("  Java VM found: ", info.libjvm_detected));
        list::push(&mut lines, flag_line("  BD-J handled: ", info.bdj_handled));
        list::push(&mut lines, hex_line("  BD-J organization id: ", &info.bdj_org_id));
        list::push(&mut lines, hex_line("  BD-J disc id: ", &info.bdj_disc_id));
    }
    assert(lines.deep_view() =~= bdj_lines(*info));
    lines
}

/// The lines about AACS; details only where it was detected, and the error code
/// only where it was not handled.
pub open spec fn aacs_lines(info: BdDiscInfo) -> Seq<Seq<char>> {
    let head = seq!["AACS:"@, "  AACS detected: "@ + flag_text(info.aacs_detected)];
    if info.aacs_detected != 0 {
        let details = seq![
            "  libaacs detected: "@ + flag_text(info.libaacs_detected),
            "  AACS MKB Version: "@ + text::integer_text(info.aacs_mkbv as int),
            "  AACS handled: "@ + flag_text(info.aacs_handled),
        ];
        if info.aacs_handled == 0 {
            head + details + seq![
                "  AACS Error code: "@ + text::integer_text(info.aacs_error_code as int),
            ]
        } else {
            head + details
        }
    } else {
        head
    }
}

fn aacs_reports(info: &BdDiscInfo) -> (r: Vec<String>)
    ensures
        r.deep_view() == aacs_lines(*info),
{
    let mut lines: Vec<String> = list::single("AACS:".to_owned());
    list::push(&mut lines, flag_line("  AACS detected: ", info.aacs_detected));
    if info.aacs_detected != 0 {
        list::push(&mut lines, flag_line("  libaacs detected: ", info.libaacs_detected));
        list::push(&mut lines, integer_line("  AACS MKB Version: ", info.aacs_mkbv));
        list::push(&mut lines, flag_line("  AACS handled: ", info.aacs_handled));
        if info.aacs_handled == 0 {
            list::push(&mut lines, integer_line("  AACS Error code: ", info.aacs_error_code));
        }
    }
    assert(lines.deep_view() =~= aacs_lines(*info));
    lines
}

/// The lines about BD+; details only where it was detected.
pub open spec fn bdplus_lines(info: BdDiscInfo) -> Seq<Seq<char>> {
    let head = seq!["BD+:"@, "  BD+ detected: "@ + flag_text(info.bdplus_detected)];
    if info.bdplus_detected != 0 {
        head + seq![
            "  libbdplus detected: "@ + flag_text(info.libbdplus_detected),
            "  BD+ generation: "@ + text::decimal(info.bdplus_gen as nat),
            "  BD+ release date: "@ + text::decimal(info.bdplus_date as nat),
            "  BD+ handled: "@ + flag_text(info.bdplus_handled),
        ]
    } else {
        head
    }
}

fn bdplus_reports(info: &BdDiscInfo) -> (r: Vec<String>)
    ensures
        r.deep_view() == bdplus_lines(*info),
{
    let mut lines: Vec<String> = list::single("BD+:".to_owned());
    list::push(&mut lines, flag_line("  BD+ detected: ", info.bdplus_detected));
    if info.bdplus_detected != 0 {
        list::push(&mut lines, flag_line("  libbdplus detected: ", info.libbdplus_detected));
        list::push(&mut lines, number_line("  BD+ generation: ", info.bdplus_gen as u64));
        list::push(&mut lines, number_line("  BD+ release date: ", info.bdplus_date as u64));
        list::push(&mut lines, flag_line("  BD+ handled: ", info.bdplus_handled));
    }
    assert(lines.deep_view() =~= bdplus_lines(*info));
    lines
}

/// The lines about what is recorded on the disc.
pub open spec fn application_lines(info: BdDiscInfo) -> Seq<Seq<char>> {
    seq![
        "Application Info:"@,
        "  Initial mode preference: "@ + if info.initial_output_mode_preference != 0 {
            "3D"@
        } else {
            "2D"@
        },
        "  3D content exists: "@ + flag_text(info.content_exist_3d),
        "  Video format: "@ + text::decimal(info.video_format as nat),
        "  Frame rate: "@ + text::decimal(info.frame_rate as nat),
        "  Initial dynamic range: "@ + text::decimal(info.initial_dynamic_range_type as nat),
        "  Provider data: "@ + hex_pairs(info.provider_data@),
    ]
}

fn application_reports(info: &BdDiscInfo) -> (r: Vec<String>)
    ensures
        r.deep_view() == application_lines(*info),
{
    let mut lines: Vec<String> = list::single("Application Info:".to_owned());
    let mut mode = "  Initial mode preference: ".to_owned();
    if info.initial_output_mode_preference != 0 {
        mode.append("3D");
    } else {
        mode.append("2D");
    }
    list::push(&mut lines, mode);
    list::push(&mut lines, flag_line("  3D content exists: ", info.content_exist_3d));
    list::push(&mut lines, number_line("  Video format: ", info.video_format as u64));
    list::push(&mut lines, number_line("  Frame rate: ", info.frame_rate as u64));
    list::push(
        &mut lines,
        number_line("  Initial dynamic range: ", info.initial_dynamic_range_type as u64),
    );
    list::push(&mut lines, hex_line("  Provider data: ", &info.provider_data));
    assert(lines.deep_view() =~= application_lines(*info));
    lines
}

/// All lines about a disc.
pub open spec fn info_lines(info: BdDiscInfo) -> Seq<Seq<char>> {
    disc_lines(info) + bdj_lines(info) + aacs_lines(info) + bdplus_lines(info) + application_lines(
        info,
    )
}

/// All lines about a disc.
pub fn disc_info(info: &BdDiscInfo) -> (r: Vec<String>)
    ensures
        r.deep_view() == info_lines(*info),
{
    let mut lines = disc_reports(info);
    list::extend(&mut lines, bdj_reports(info));
    list::extend(&mut lines, aacs_reports(info));
    list::extend(&mut lines, bdplus_reports(info));
    list::extend(&mut lines, application_reports(info));
    lines
}

/// A length is shown in whole seconds of 90,000 ticks.
pub proof fn lengths_are_shown_in_seconds(secs: u64, ticks: u64)
    requires
        90_000 * secs <= ticks < 90_000 * (secs + 1),
    ensures
        duration_text(ticks) == text::clock(secs as nat),
{
}

/// What is listed of a title starts with its line and a line for each chapter, and
/// what is listed of a clip with its line and one for each video stream, then audio
/// and subtitle streams and those of the second picture.
pub proof fn titles_and_clips_are_listed_whole(t: BdTitle, n: int, clip: BdClip, i: int)
    ensures
        title_lines(t)[0] == title_line(t),
        title_lines(t).last().len() == 0,
        0 <= i < t.chapters.len() ==> title_lines(t)[1 + i] == chapter_line(t.chapters[i]),
        ({
            let lines = clip_lines(n, clip);
            let v = clip.video_streams.len();
            let a = v + clip.audio_streams.len();
            let g = a + clip.pg_streams.len();
            let sa = g + clip.sec_audio_streams.len();
            let sv = sa + clip.sec_video_streams.len();
            &&& lines[0] == clip_line(n, clip)
            &&& lines.len() == 1 + sv
            &&& 0 <= i < v ==> lines[1 + i] == stream_line(StreamRole::Video, clip.video_streams[i])
            &&& v <= i < a ==> lines[1 + i] == stream_line(
                StreamRole::Audio,
                clip.audio_streams[i - v],
            )
            &&& a <= i < g ==> lines[1 + i] == stream_line(
                StreamRole::Subtitle,
                clip.pg_streams[i - a],
            )
            &&& g <= i < sa ==> lines[1 + i] == stream_line(
                StreamRole::SecondaryAudio,
                clip.sec_audio_streams[i - g],
            )
            &&& sa <= i < sv ==> lines[1 + i] == stream_line(
                StreamRole::SecondaryVideo,
                clip.sec_video_streams[i - sa],
            )
        }),
{
}

} // verus!
