use discrip::dvd::ifo::{
    audio_stream_id, decode_dvd_time, iso639_1_to_2, parse_vmg, parse_vts, subp_stream_id,
    AudioCoding, IfoError,
};

const SECTOR: usize = 2048;

fn seconds(ticks: u64) -> f64 {
    ticks as f64 / 90_000.0
}

#[test]
fn dvd_time_pal() {
    // 01:02:03.12 @ 25fps: BCD 0x01 0x02 0x03, frame byte 0b01 << 6 | 0x12
    let secs = seconds(decode_dvd_time([0x01, 0x02, 0x03, 0x40 | 0x12]));
    assert!((secs - (3723.0 + 12.0 / 25.0)).abs() < 1e-9);
}

#[test]
fn dvd_time_ntsc() {
    // 00:00:10.15 @ 29.97fps
    let secs = seconds(decode_dvd_time([0x00, 0x00, 0x10, 0xC0 | 0x15]));
    assert!((secs - (10.0 + 15.0 / (30000.0 / 1001.0))).abs() < 1e-9);
}

#[test]
fn dvd_time_in_ticks() {
    assert_eq!(decode_dvd_time([0x01, 0x02, 0x03, 0x40 | 0x12]), 3723 * 90_000 + 12 * 3600);
    assert_eq!(decode_dvd_time([0x00, 0x00, 0x10, 0xC0 | 0x15]), 10 * 90_000 + 15 * 3003);
}

/// Build a minimal synthetic VMG IFO with two titles.
fn synthetic_vmg() -> Vec<u8> {
    let mut d = vec![0u8; 2 * SECTOR + 64];
    d[..12].copy_from_slice(b"DVDVIDEO-VMG");
    // TT_SRPT at sector 2
    d[0xC4..0xC8].copy_from_slice(&2u32.to_be_bytes());
    let t = 2 * SECTOR;
    d[t..t + 2].copy_from_slice(&2u16.to_be_bytes()); // 2 titles
    // title 1: 1 angle, 8 ptts, vts 1, ttn 1
    let e = t + 8;
    d[e + 1] = 1;
    d[e + 2..e + 4].copy_from_slice(&8u16.to_be_bytes());
    d[e + 6] = 1;
    d[e + 7] = 1;
    // title 2: 3 angles, 2 ptts, vts 2, ttn 1
    let e = t + 20;
    d[e + 1] = 3;
    d[e + 2..e + 4].copy_from_slice(&2u16.to_be_bytes());
    d[e + 6] = 2;
    d[e + 7] = 1;
    d
}

#[test]
fn parse_synthetic_vmg() {
    let titles = parse_vmg(&synthetic_vmg()).unwrap();
    assert_eq!(titles.len(), 2);
    assert_eq!(titles[0].title_nr, 1);
    assert_eq!(titles[0].nr_of_ptts, 8);
    assert_eq!(titles[0].title_set_nr, 1);
    assert_eq!(titles[1].nr_of_angles, 3);
    assert_eq!(titles[1].title_set_nr, 2);
}

#[test]
fn vmg_rejects_bad_magic() {
    assert!(parse_vmg(&vec![0u8; 4096]).is_err());
}

#[test]
fn vmg_titles_count_from_one() {
    let titles = parse_vmg(&synthetic_vmg()).unwrap();
    for (i, t) in titles.iter().enumerate() {
        assert_eq!(t.title_nr as usize, i + 1);
    }
}

/// Build a minimal synthetic VTS IFO: 1 title, 1 PGC with 2 programs and
/// 3 cells (the middle one an angle-2 cell), AC3 German + LPCM audio,
/// one English subpicture, widescreen.
fn synthetic_vts() -> Vec<u8> {
    let mut d = vec![0u8; 4 * SECTOR];
    d[..12].copy_from_slice(b"DVDVIDEO-VTS");

    // video attr: 16:9 (aspect bits 3-2 = 0b11)
    d[0x200] = 0b0000_1100;

    // 2 audio streams
    d[0x202..0x204].copy_from_slice(&2u16.to_be_bytes());
    // audio 0: AC3 (format 0), lang_type 1, lang "de"
    d[0x204] = 0b000_0_01_00;
    d[0x204 + 1] = 0x02; // 3 channels
    d[0x204 + 2] = b'd';
    d[0x204 + 3] = b'e';
    // audio 1: LPCM (format 4), lang_type 1, lang "en"
    d[0x20C] = 0b100_0_01_00;
    d[0x20C + 1] = 0x01; // 2 channels
    d[0x20C + 2] = b'e';
    d[0x20C + 3] = b'n';

    // 1 subpicture stream, lang "en"
    d[0x254..0x256].copy_from_slice(&1u16.to_be_bytes());
    d[0x256] = 0x01; // lang_type 1
    d[0x256 + 2] = b'e';
    d[0x256 + 3] = b'n';

    // PTT_SRPT at sector 2: 1 title, 2 PTTs -> (pgc 1, pg 1), (pgc 1, pg 2)
    d[0xC8..0xCC].copy_from_slice(&2u32.to_be_bytes());
    let p = 2 * SECTOR;
    d[p..p + 2].copy_from_slice(&1u16.to_be_bytes());
    d[p + 4..p + 8].copy_from_slice(&19u32.to_be_bytes()); // last byte
    d[p + 8..p + 12].copy_from_slice(&12u32.to_be_bytes()); // title 1 offset
    d[p + 12..p + 14].copy_from_slice(&1u16.to_be_bytes()); // pgcn
    d[p + 14..p + 16].copy_from_slice(&1u16.to_be_bytes()); // pgn
    d[p + 16..p + 18].copy_from_slice(&1u16.to_be_bytes());
    d[p + 18..p + 20].copy_from_slice(&2u16.to_be_bytes());

    // PGCIT at sector 3: 1 PGC at offset 16
    d[0xCC..0xD0].copy_from_slice(&3u32.to_be_bytes());
    let g = 3 * SECTOR;
    d[g..g + 2].copy_from_slice(&1u16.to_be_bytes());
    d[g + 8 + 4..g + 8 + 8].copy_from_slice(&16u32.to_be_bytes());

    let pgc = g + 16;
    d[pgc + 2] = 2; // programs
    d[pgc + 3] = 3; // cells
    // playback 00:01:00.00 PAL
    d[pgc + 4..pgc + 8].copy_from_slice(&[0x00, 0x01, 0x00, 0x40]);
    // audio_control[0]: present, substream 0
    d[pgc + 0x0C..pgc + 0x0E].copy_from_slice(&0x8000u16.to_be_bytes());
    // audio_control[1]: present, substream 1
    d[pgc + 0x0E..pgc + 0x10].copy_from_slice(&0x8100u16.to_be_bytes());
    // subp_control[0]: present, wide stream 2
    d[pgc + 0x1C..pgc + 0x20].copy_from_slice(&0x8002_0000u32.to_be_bytes());
    // program map at +0x100, cell playback at +0x104
    d[pgc + 0xE6..pgc + 0xE8].copy_from_slice(&0x100u16.to_be_bytes());
    d[pgc + 0xE8..pgc + 0xEA].copy_from_slice(&0x104u16.to_be_bytes());
    d[pgc + 0x100] = 1; // program 1 -> cell 1
    d[pgc + 0x101] = 3; // program 2 -> cell 3

    // cells: 30s normal, 20s angle-middle (skipped), 30s normal
    let cases: [(u8, [u8; 4], u32, u32); 3] = [
        (0b00, [0x00, 0x00, 0x30, 0x40], 0, 99),
        (0b10, [0x00, 0x00, 0x20, 0x40], 100, 149),
        (0b00, [0x00, 0x00, 0x30, 0x40], 150, 299),
    ];
    for (c, (mode, time, first, last)) in cases.iter().enumerate() {
        let e = pgc + 0x104 + c * 24;
        d[e] = mode << 6;
        d[e + 4..e + 8].copy_from_slice(time);
        d[e + 8..e + 12].copy_from_slice(&first.to_be_bytes());
        d[e + 20..e + 24].copy_from_slice(&last.to_be_bytes());
    }
    d
}

#[test]
fn parse_synthetic_vts() {
    let vts = parse_vts(&synthetic_vts()).unwrap();

    assert!(vts.widescreen);

    assert_eq!(vts.audio_attrs.len(), 2);
    assert_eq!(vts.audio_attrs[0].coding, AudioCoding::Ac3);
    assert_eq!(vts.audio_attrs[0].lang.as_deref(), Some("de"));
    assert_eq!(vts.audio_attrs[0].channels, 3);
    assert_eq!(vts.audio_attrs[1].coding, AudioCoding::Lpcm);
    assert_eq!(vts.audio_attrs[1].lang.as_deref(), Some("en"));

    assert_eq!(vts.subp_attrs.len(), 1);
    assert_eq!(vts.subp_attrs[0].lang.as_deref(), Some("en"));

    assert_eq!(vts.title_ptts.len(), 1);
    assert_eq!(vts.title_ptts[0], vec![(1, 1), (1, 2)]);

    let (pgcn, pgc) = vts.pgc_for_title(1).unwrap();
    assert_eq!(pgcn, 1);
    assert_eq!(seconds(pgc.playback_ticks), 60.0);
    assert_eq!(pgc.program_entry_cells, vec![1, 3]);
    assert_eq!(pgc.cells.len(), 3);
    assert!(pgc.cells[0].is_angle1());
    assert!(!pgc.cells[1].is_angle1());

    // audio control: substream numbers 0 and 1
    assert_eq!((pgc.audio_control[0] >> 8) & 0x07, 0);
    assert_eq!((pgc.audio_control[1] >> 8) & 0x07, 1);

    // cell start times skip the angle-2 cell's duration
    let starts: Vec<f64> = pgc.cell_start_times().into_iter().map(seconds).collect();
    assert_eq!(starts, vec![0.0, 30.0, 30.0]);
}

#[test]
fn stream_ids() {
    assert_eq!(audio_stream_id(AudioCoding::Ac3, 0), 0x80);
    assert_eq!(audio_stream_id(AudioCoding::Dts, 1), 0x89);
    assert_eq!(audio_stream_id(AudioCoding::Lpcm, 0), 0xA0);
    assert_eq!(audio_stream_id(AudioCoding::Mpeg1, 2), 0x1C2);
    assert_eq!(subp_stream_id(3), 0x23);
}

#[test]
fn lang_mapping() {
    assert_eq!(iso639_1_to_2("de"), "deu");
    assert_eq!(iso639_1_to_2("en"), "eng");
    assert_eq!(iso639_1_to_2("xx"), "und");
}

#[test]
fn titles_without_a_chain_have_none() {
    let vts = parse_vts(&synthetic_vts()).unwrap();
    assert!(vts.pgc_for_title(0).is_none());
    assert!(vts.pgc_for_title(2).is_none());
}

#[test]
fn truncated_tables_are_errors() {
    let mut d = synthetic_vmg();
    d.truncate(2 * SECTOR + 12);
    let error = parse_vmg(&d).unwrap_err();
    assert!(!matches!(error, IfoError::NotVmg));
    let mut d = synthetic_vts();
    d.truncate(3 * SECTOR + 100);
    let error = parse_vts(&d).unwrap_err();
    assert!(!matches!(error, IfoError::NotVts));
    assert!(matches!(parse_vts(&synthetic_vmg()), Err(IfoError::NotVts)));
    assert!(matches!(parse_vmg(&synthetic_vts()), Err(IfoError::NotVmg)));
}

#[test]
fn coding_types_match_the_names() {
    assert_eq!(AudioCoding::Ac3.as_bd_coding_type(), 0x81);
    assert_eq!(AudioCoding::Dts.as_bd_coding_type(), 0x82);
    assert_eq!(AudioCoding::Lpcm.as_bd_coding_type(), 0x80);
    assert_eq!(AudioCoding::Unknown(7).name(), "Unknown(7)");
}

#[test]
fn each_error_has_its_input() {
    let mut d = synthetic_vts();
    d.truncate(3 * SECTOR + 16 + 6);
    assert_eq!(parse_vts(&d).unwrap_err(), IfoError::TruncatedPgcTime);
    let mut d = synthetic_vts();
    d.truncate(3 * SECTOR + 16 + 0x104 + 6);
    assert_eq!(parse_vts(&d).unwrap_err(), IfoError::TruncatedCellTime);
    assert_eq!(
        parse_vmg(b"DVDVIDEO-VMG").unwrap_err(),
        IfoError::Truncated { offset: 0xC4 }
    );
    assert_eq!(
        IfoError::Truncated { offset: 0xC4 }.message(),
        "IFO truncated at offset 0xc4"
    );
    assert_eq!(
        IfoError::NotVmg.message(),
        "not a VMG IFO (missing DVDVIDEO-VMG magic)"
    );
}
