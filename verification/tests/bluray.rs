use discrip::bluray::{
    disc_info, format_duration, lang_str, list_titles, BdChapter, BdClip, BdDiscInfo, BdStream,
    BdTitle, TitleRead, READ_CHUNK,
};
use discrip::disc::{detect_disc_format, BdProbe, DiscFormat, DvdProbe};

fn stream(coding_type: u8, lang: &[u8; 4], pid: u16) -> BdStream {
    BdStream { coding_type, format: 6, rate: 1, lang: *lang, pid }
}

fn title() -> BdTitle {
    BdTitle {
        idx: 3,
        playlist: 800,
        duration: 90_000 * 3_725,
        angle_count: 1,
        chapter_count: 1,
        clip_count: 1,
        mark_count: 2,
        chapters: vec![BdChapter { idx: 1, start: 0, duration: 90_000 * 61, clip_ref: 0 }],
        clips: vec![BdClip {
            pkt_count: 77,
            in_time: 0,
            out_time: 90_000 * 5,
            video_streams: vec![stream(0x1b, b"\0\0\0\0", 0x1011)],
            audio_streams: vec![stream(0x83, b"eng\0", 0x1100)],
            pg_streams: vec![stream(0x90, &[0xff, 0xfe, 0, 0], 0x1200)],
            sec_audio_streams: vec![stream(0xa1, b"deu\0", 0x1a00)],
            sec_video_streams: vec![stream(0x1b, b"\0\0\0\0", 0x1b00)],
        }],
    }
}

#[test]
fn durations_are_clock_times() {
    assert_eq!(format_duration(0), "00:00:00");
    assert_eq!(format_duration(90_000 * 3_725 + 89_999), "01:02:05");
    assert_eq!(format_duration(90_000 * 3_600 * 100), "100:00:00");
}

#[test]
fn language_codes_end_at_the_zero() {
    assert_eq!(lang_str(b"eng\0"), "eng");
    assert_eq!(lang_str(b"engl"), "engl");
    assert_eq!(lang_str(&[0, b'e', b'n', b'g']), "");
    assert_eq!(lang_str(&[0xff, b'e', 0, 0]), "???");
}

#[test]
fn listing_shows_titles_chapters_and_streams() {
    assert_eq!(
        list_titles(3, &vec![title()]),
        vec![
            "Main title: 3",
            "",
            "Title   3  playlist=00800  duration=01:02:05  angles=1  chapters=1  clips=1  marks=2",
            "  Chapter   1  start=00:00:00  duration=00:01:01  clip=0",
            "  Clip   0  in=00:00:00  out=00:00:05  pkts=77",
            "    Video  codec=0x1b  format=6  rate=1  pid=0x1011",
            "    Audio  codec=0x83  lang=eng  pid=0x1100",
            "    Subtitle  lang=???  pid=0x1200",
            "    SecAudio  codec=0xa1  lang=deu  pid=0x1a00",
            "    SecVideo  codec=0x1b  pid=0x1b00",
            "",
        ]
    );
    assert_eq!(list_titles(-1, &vec![]), vec!["Main title: -1", ""]);
}

#[test]
fn reading_gives_the_whole_title() {
    for size in [0, 1, READ_CHUNK - 1, READ_CHUNK, READ_CHUNK + 1, 3 * READ_CHUNK] {
        let mut read = TitleRead::new(size);
        let mut position: u64 = 0;
        loop {
            let ask = read.next_size(position);
            position += ask as u64;
            if read.after_read(ask, ask) {
                break;
            }
        }
        assert_eq!(read.total, size);
    }
}

#[test]
fn short_reads_end_the_reading() {
    let mut read = TitleRead::new(2 * READ_CHUNK);
    let ask = read.next_size(0);
    assert_eq!(ask as u64, READ_CHUNK);
    assert!(read.after_read(ask, 5));
    assert_eq!(read.total, 5);
}

fn info() -> BdDiscInfo {
    BdDiscInfo {
        disc_name: None,
        udf_volume_id: Some("VOL".to_string()),
        disc_id: vec![0x0a, 0xff],
        first_play_supported: 1,
        top_menu_supported: 0,
        num_hdmv_titles: 4,
        num_bdj_titles: 0,
        num_unsupported_titles: 2,
        bdj_detected: 0,
        libjvm_detected: 0,
        bdj_handled: 0,
        bdj_org_id: vec![],
        bdj_disc_id: vec![],
        aacs_detected: 1,
        libaacs_detected: 1,
        aacs_mkbv: 62,
        aacs_handled: 0,
        aacs_error_code: -3,
        bdplus_detected: 0,
        libbdplus_detected: 0,
        bdplus_gen: 0,
        bdplus_date: 0,
        bdplus_handled: 0,
        initial_output_mode_preference: 1,
        content_exist_3d: 0,
        video_format: 5,
        frame_rate: 1,
        initial_dynamic_range_type: 0,
        provider_data: vec![0, 1],
    }
}

#[test]
fn disc_info_shows_details_of_what_is_there() {
    assert_eq!(
        disc_info(&info()),
        vec![
            "Blu-Ray Info:",
            "  Volume Identifier: VOL",
            "  Disc Name: ",
            "  Disc Id: 0aff",
            "  First Play supported: true",
            "  Top menu supported: false",
            "  HDMV titles: 4",
            "  BD-J titles: 0",
            "  Unsupported titles: 2",
            "BD-J:",
            "  BD-J detected: false",
            "AACS:",
            "  AACS detected: true",
            "  libaacs detected: true",
            "  AACS MKB Version: 62",
            "  AACS handled: false",
            "  AACS Error code: -3",
            "BD+:",
            "  BD+ detected: false",
            "Application Info:",
            "  Initial mode preference: 3D",
            "  3D content exists: false",
            "  Video format: 5",
            "  Frame rate: 1",
            "  Initial dynamic range: 0",
            "  Provider data: 0001",
        ]
    );
}

#[test]
fn the_detection_flag_decides() {
    let found = BdProbe::Info { bluray_detected: 1 };
    let other = BdProbe::Info { bluray_detected: 0 };
    assert_eq!(detect_disc_format("/d", found, DvdProbe::Ifo), Ok(DiscFormat::BluRay));
    assert_eq!(detect_disc_format("/d", other, DvdProbe::Ifo), Ok(DiscFormat::Dvd));
    assert_eq!(detect_disc_format("/d", BdProbe::NoInfo, DvdProbe::Ifo), Ok(DiscFormat::Dvd));
    assert_eq!(
        detect_disc_format("/d", BdProbe::NotOpened, DvdProbe::NoIfo),
        Err("No Blu-ray or DVD video disc detected at '/d'".to_string())
    );
    assert_eq!(DiscFormat::BluRay.label(), "Blu-ray");
    assert_eq!(DiscFormat::Dvd.label(), "DVD");
}
