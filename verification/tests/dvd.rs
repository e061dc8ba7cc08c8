use discrip::disc::DiscFormat;
use discrip::dvd::ifo::{
    AudioAttr, AudioCoding, CellPlayback, Pgc, SubpAttr, VmgTitle, VtsInfo,
};
use discrip::dvd::{
    disc_info, find_title, ifo_size, list_titles, read_blocks, subp_stream_number, title_pgc,
    BlockRequest, CellReader, VtsRead, CHUNK_BLOCKS,
};
use discrip::rip::analysis::{ChapterMark, DiscType};
use discrip::rip::dvd_analysis::{analyse_dvd, build_chapters, sets_to_read};

fn cell(block_mode: u8, secs: u64, first_sector: u32, last_sector: u32) -> CellPlayback {
    CellPlayback { block_mode, duration_ticks: secs * 90_000, first_sector, last_sector }
}

fn pgc(secs: u64) -> Pgc {
    let mut audio_control = [0u16; 8];
    audio_control[0] = 0x8000;
    audio_control[2] = 0x8300;
    let mut subp_control = [0u32; 32];
    subp_control[0] = 0x8402_0000;
    Pgc {
        playback_ticks: secs * 90_000,
        audio_control,
        subp_control,
        program_entry_cells: vec![1, 3],
        cells: vec![cell(0, 30, 0, 99), cell(2, 20, 100, 149), cell(0, 30, 150, 299)],
    }
}

fn vts(pgcs: Vec<Pgc>) -> VtsInfo {
    let title_ptts = (0..pgcs.len()).map(|i| vec![(i as u16 + 1, 1)]).collect();
    VtsInfo {
        widescreen: true,
        audio_attrs: vec![
            AudioAttr { coding: AudioCoding::Ac3, lang: Some("de".to_string()), channels: 6 },
            AudioAttr { coding: AudioCoding::Dts, lang: None, channels: 6 },
            AudioAttr { coding: AudioCoding::Lpcm, lang: None, channels: 2 },
        ],
        subp_attrs: vec![SubpAttr { lang: Some("en".to_string()) }],
        title_ptts,
        pgcs,
    }
}

fn entry(title_nr: u32, title_set_nr: u8, vts_ttn: u8) -> VmgTitle {
    VmgTitle { title_nr, nr_of_angles: 1, nr_of_ptts: 2, title_set_nr, vts_ttn }
}

#[test]
fn subpicture_number_follows_the_display_mode() {
    assert_eq!(subp_stream_number(0x8402_0000, true), 2);
    assert_eq!(subp_stream_number(0x8402_0000, false), 4);
    assert_eq!(subp_stream_number(0xff00_0000, false), 31);
}

#[test]
fn titles_are_found_by_number() {
    let vmg = vec![entry(1, 1, 1), entry(2, 1, 2)];
    assert_eq!(find_title(&vmg, 2), Ok(entry(2, 1, 2)));
    assert_eq!(find_title(&vmg, 3), Err("Title 3 not found (disc has 2)".to_string()));
    let set = vts(vec![pgc(60)]);
    assert!(title_pgc(&set, &entry(1, 1, 1)).is_ok());
    assert_eq!(
        title_pgc(&set, &entry(2, 1, 2)).unwrap_err(),
        "No PGC found for title 2"
    );
}

#[test]
fn only_angle_one_blocks_are_read() {
    let mut reader = CellReader::new(&pgc(60).cells);
    let mut blocks: Vec<u64> = Vec::new();
    while let Some(request) = reader.next_request() {
        // A short read is taken up where it ended.
        let got = if request.count > 7 { 7 } else { request.count };
        blocks.extend(request.sector..request.sector + got);
        assert_eq!(reader.after_read(got), got * 2048);
    }
    let expected: Vec<u64> = (0..100).chain(150..300).collect();
    assert_eq!(blocks, expected);
    assert_eq!(reader.total_bytes, 250 * 2048);
}

#[test]
fn long_cells_are_read_in_chunks() {
    let reader = CellReader::new(&vec![cell(3, 1, 0, 9), cell(1, 1, 5, 5 + 5000)]);
    assert_eq!(
        reader.next_request(),
        Some(BlockRequest { sector: 5, count: CHUNK_BLOCKS })
    );
    assert_eq!(CellReader::new(&vec![cell(0, 1, 9, 8)]).next_request(), None);
    let whole = CellReader::new(&vec![cell(0, 1, 0, u32::MAX)]);
    assert_eq!(whole.next_request(), Some(BlockRequest { sector: 0, count: 4096 }));
}

#[test]
fn failed_reads_name_the_sector() {
    let request = BlockRequest { sector: 150, count: 10 };
    assert_eq!(read_blocks(request, 4), Ok(4));
    assert_eq!(
        read_blocks(request, 0),
        Err("DVDReadBlocks failed at sector 150".to_string())
    );
    assert_eq!(ifo_size(2, 3), Ok(6144));
    assert_eq!(ifo_size(2, -1), Err("IFO for title set 2 has no size".to_string()));
}

#[test]
fn dvd_info_counts_title_sets() {
    assert_eq!(
        disc_info(&vec![entry(1, 1, 1), entry(2, 2, 1), entry(3, 1, 2)]),
        vec![
            "DVD-Video Info:",
            "  Titles: 3",
            "  Title sets (VTS): 2",
            "  Title  1: VTS 1  angles=1  chapters=2",
            "  Title  2: VTS 2  angles=1  chapters=2",
            "  Title  3: VTS 1  angles=1  chapters=2",
        ]
    );
}

#[test]
fn dvd_listing_shows_present_streams() {
    let titles = vec![
        (entry(1, 1, 1), VtsRead::Read(vts(vec![pgc(3_661)]))),
        (entry(2, 2, 1), VtsRead::Failed("broken".to_string())),
        (entry(3, 1, 9), VtsRead::Read(vts(vec![]))),
    ];
    assert_eq!(
        list_titles(&titles),
        vec![
            "Title   1  vts=01 pgc=01  duration=01:01:01  angles=1  chapters=2  cells=3",
            "    Audio  codec=Ac3  lang=de  channels=6  id=0x0080",
            "    Audio  codec=Lpcm  lang=??  channels=2  id=0x00a3",
            "    Subtitle  lang=en  id=0x0022",
            "",
            "Title   2  (failed to read VTS 2: broken)",
            "Title   3  (no PGC)",
        ]
    );
}

#[test]
fn chapters_follow_the_programs() {
    assert_eq!(
        build_chapters(&pgc(60)),
        vec![
            ChapterMark { index: 0, start_ticks: 0, duration_ticks: 30 * 90_000 },
            ChapterMark { index: 1, start_ticks: 30 * 90_000, duration_ticks: 30 * 90_000 },
        ]
    );
    // A chain that claims to end early leaves the last chapter empty.
    assert_eq!(build_chapters(&pgc(10))[1].duration_ticks, 0);
    let mut odd = pgc(60);
    odd.program_entry_cells = vec![0, 9];
    assert_eq!(build_chapters(&odd)[1].start_ticks, 0);
}

#[test]
fn dvd_analysis_takes_the_longest_title() {
    let vmg = vec![entry(1, 1, 1), entry(2, 1, 2), entry(3, 2, 1), entry(4, 1, 3)];
    assert_eq!(sets_to_read(&vmg), vec![1, 2]);
    let sets = vec![
        (1, VtsRead::Read(vts(vec![pgc(1000), pgc(2000)]))),
        (2, VtsRead::Failed("no disc".to_string())),
    ];
    let analysis = analyse_dvd(&vmg, &sets);
    assert_eq!(
        analysis.warnings,
        vec!["Warning: skipping title 3 (VTS 2 unreadable: no disc)"]
    );
    let found = analysis.outcome.unwrap();
    assert_eq!(found.format, DiscFormat::Dvd);
    assert_eq!(found.main_title_idx, 2);
    assert!(matches!(found.detected_type, DiscType::Movie { title_idx: 2 }));
    let order: Vec<(u32, i32)> = found.titles.iter().map(|t| (t.index, t.score)).collect();
    assert_eq!(order, vec![(2, 6), (1, 1)]);
    let first = &found.titles[0];
    let audio: Vec<(usize, u16, &str, u8)> = first
        .audio_streams
        .iter()
        .map(|a| (a.index_in_clip, a.pid, a.language.as_str(), a.coding_type))
        .collect();
    assert_eq!(audio, vec![(0, 0x80, "deu", 0x81), (1, 0xA3, "und", 0x80)]);
    assert_eq!(first.subtitle_streams[0].pid, 0x22);
    assert_eq!(first.subtitle_streams[0].language, "eng");
}

#[test]
fn equally_long_titles_leave_the_last_as_main() {
    let vmg = vec![entry(1, 1, 1), entry(2, 1, 2)];
    let sets = vec![(1, VtsRead::Read(vts(vec![pgc(500), pgc(500)])))];
    assert_eq!(analyse_dvd(&vmg, &sets).outcome.unwrap().main_title_idx, 2);
}

#[test]
fn dvds_without_titles_are_refused() {
    assert_eq!(analyse_dvd(&vec![], &vec![]).outcome.unwrap_err(), "DVD has no titles");
    let sets = vec![(1, VtsRead::Read(vts(vec![])))];
    assert_eq!(
        analyse_dvd(&vec![entry(1, 1, 1)], &sets).outcome.unwrap_err(),
        "No playable titles found on DVD"
    );
}
