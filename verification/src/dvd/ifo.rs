//! Parser for the DVD-Video IFO tables.
//!
//! All integers are big-endian, all sector pointers are in 2048-byte units.
//! Times are kept in ticks of a 90 kHz clock, in which a frame of either
//! television standard is a whole number.
use vstd::prelude::*;

use crate::{gather, text};

verus! {

pub const SECTOR: usize = 2048;

/// Ticks of the 90 kHz clock in one second.
pub const TICKS_PER_SECOND: u64 = 90_000;

/// Why an IFO file cannot be used.
#[derive(Debug, Clone, Copy, PartialEq, Eq, Structural)]
pub enum IfoError {
    NotVmg,
    NotVts,
    Truncated { offset: u64 },
    TruncatedPgcTime,
    TruncatedCellTime,
}

impl IfoError {
    /// The text shown to the user.
    pub open spec fn message_text(self) -> Seq<char> {
        match self {
            IfoError::NotVmg => "not a VMG IFO (missing DVDVIDEO-VMG magic)"@,
            IfoError::NotVts => "not a VTS IFO (missing DVDVIDEO-VTS magic)"@,
            IfoError::Truncated { offset } => "IFO truncated at offset 0x"@ + text::hexadecimal(
                offset as nat,
            ),
            IfoError::TruncatedPgcTime => "IFO truncated in PGC playback_time"@,
            IfoError::TruncatedCellTime => "IFO truncated in cell playback_time"@,
        }
    }

    /// The text shown to the user.
    pub fn message(&self) -> (r: String)
        ensures
            r@ == self.message_text(),
    {
        match self {
            IfoError::NotVmg => "not a VMG IFO (missing DVDVIDEO-VMG magic)".to_owned(),
            IfoError::NotVts => "not a VTS IFO (missing DVDVIDEO-VTS magic)".to_owned(),
            IfoError::Truncated { offset } => {
                let mut out = "IFO truncated at offset 0x".to_owned();
                text::push_hex(&mut out, *offset);
                out
            },
            IfoError::TruncatedPgcTime => "IFO truncated in PGC playback_time".to_owned(),
            IfoError::TruncatedCellTime => "IFO truncated in cell playback_time".to_owned(),
        }
    }
}

// ---------------------------------------------------------------------------
// Reading integers
// ---------------------------------------------------------------------------

/// The byte at `off`.
pub open spec fn byte_at(data: Seq<u8>, off: int) -> Result<u8, IfoError> {
    if off < data.len() {
        Ok(data[off])
    } else {
        Err(IfoError::Truncated { offset: off as u64 })
    }
}

/// The big-endian 16-bit integer at `off`.
pub open spec fn u16_at(data: Seq<u8>, off: int) -> Result<u16, IfoError> {
    if off + 2 <= data.len() {
        Ok((data[off] * 0x100 + data[off + 1]) as u16)
    } else {
        Err(IfoError::Truncated { offset: off as u64 })
    }
}

/// The big-endian 32-bit integer at `off`.
pub open spec fn u32_at(data: Seq<u8>, off: int) -> Result<u32, IfoError> {
    if off + 4 <= data.len() {
        Ok(
            (data[off] * 0x100_0000 + data[off + 1] * 0x1_0000 + data[off + 2] * 0x100 + data[off
                + 3]) as u32,
        )
    } else {
        Err(IfoError::Truncated { offset: off as u64 })
    }
}

/// The largest offset that the tables can lead to.
pub open spec fn offset_in_reach(off: int) -> bool {
    0 <= off < 0x1000_0000_0000_0000
}

fn rd_u8(data: &[u8], off: u64) -> (r: Result<u8, IfoError>)
    ensures
        r == byte_at(data@, off as int),
{
    if off < data.len() as u64 {
        Ok(data[off as usize])
    } else {
        Err(IfoError::Truncated { offset: off })
    }
}

fn rd_u16(data: &[u8], off: u64) -> (r: Result<u16, IfoError>)
    requires
        offset_in_reach(off as int),
    ensures
        r == u16_at(data@, off as int),
{
    if off + 2 <= data.len() as u64 {
        let i: usize = off as usize;
        Ok(data[i] as u16 * 0x100 + data[i + 1] as u16)
    } else {
        Err(IfoError::Truncated { offset: off })
    }
}

fn rd_u32(data: &[u8], off: u64) -> (r: Result<u32, IfoError>)
    requires
        offset_in_reach(off as int),
    ensures
        r == u32_at(data@, off as int),
{
    if off + 4 <= data.len() as u64 {
        let i: usize = off as usize;
        Ok(
            data[i] as u32 * 0x100_0000 + data[i + 1] as u32 * 0x1_0000 + data[i + 2] as u32 * 0x100
                + data[i + 3] as u32,
        )
    } else {
        Err(IfoError::Truncated { offset: off })
    }
}

/// Whether `data` starts with the twelve bytes of `magic`.
pub open spec fn starts_with(data: Seq<u8>, magic: Seq<u8>) -> bool {
    data.len() >= magic.len() && data.take(magic.len() as int) == magic
}

/// `DVDVIDEO-VMG`.
pub open spec fn vmg_magic() -> Seq<u8> {
    seq![0x44u8, 0x56, 0x44, 0x56, 0x49, 0x44, 0x45, 0x4F, 0x2D, 0x56, 0x4D, 0x47]
}

/// `DVDVIDEO-VTS`.
pub open spec fn vts_magic() -> Seq<u8> {
    seq![0x44u8, 0x56, 0x44, 0x56, 0x49, 0x44, 0x45, 0x4F, 0x2D, 0x56, 0x54, 0x53]
}

fn has_magic(data: &[u8], magic: &[u8; 12]) -> (r: bool)
    ensures
        r == starts_with(data@, magic@),
{
    if data.len() < 12 {
        return false;
    }
    let mut i: usize = 0;
    while i < 12
        invariant
            i <= 12,
            magic@.len() == 12,
            data@.len() >= 12,
            forall|j: int| 0 <= j < i ==> data@[j] == magic@[j],
        decreases 12 - i,
    {
        if data[i] != magic[i] {
            assert(data@.take(12)[i as int] != magic@[i as int]);
            return false;
        }
        i = i + 1;
    }
    assert(data@.take(12) == magic@);
    true
}

// ---------------------------------------------------------------------------
// Times
// ---------------------------------------------------------------------------

/// The number that a byte writes as two binary-coded decimal digits.
pub open spec fn bcd_value(b: u8) -> nat {
    ((b / 16) * 10 + b % 16) as nat
}

/// The length of one frame in ticks: 29.97 frames per second where the two
/// rate bits say 3, else 25.
pub open spec fn frame_ticks(rate_bits: u8) -> nat {
    if rate_bits == 3 {
        3003
    } else {
        3600
    }
}

/// The time that four bytes of binary-coded decimals hold, in 90 kHz ticks.
pub open spec fn dvd_time_ticks(hour: u8, minute: u8, second: u8, frame: u8) -> nat {
    (bcd_value(hour) * 3600 + bcd_value(minute) * 60 + bcd_value(second)) * 90_000 + bcd_value(
        frame % 64,
    ) * frame_ticks(frame / 64)
}

fn bcd(b: u8) -> (r: u64)
    ensures
        r == bcd_value(b),
        r <= 165,
{
    (b / 16) as u64 * 10 + (b % 16) as u64
}

/// Decode a 4-byte BCD `dvd_time_t` to 90 kHz ticks. Byte 3 encodes the frame
/// rate in bits 7-6 (0b01 = 25 fps PAL, 0b11 = 29.97 fps NTSC) and BCD frames
/// in bits 5-0. Other rate bits are illegal and taken for PAL.
pub fn decode_dvd_time(t: [u8; 4]) -> (r: u64)
    ensures
        r == dvd_time_ticks(t@[0], t@[1], t@[2], t@[3]),
        r < 0x10_0000_0000,
{
    let secs: u64 = bcd(t[0]) * 3600 + bcd(t[1]) * 60 + bcd(t[2]);
    let frame: u8 = t[3];
    let frame_len: u64 = if frame / 64 == 3 {
        3003
    } else {
        3600
    };
    let frames: u64 = bcd(frame % 64);
    assert(frames * frame_len <= 165 * 3600) by (nonlinear_arith)
        requires
            frames <= 165,
            frame_len <= 3600,
    ;
    secs * TICKS_PER_SECOND + frames * frame_len
}

/// The time that stands at `off`, or `failure` where the data ends before it.
pub open spec fn time_at(data: Seq<u8>, off: int, failure: IfoError) -> Result<u64, IfoError> {
    if off + 4 <= data.len() {
        Ok(dvd_time_ticks(data[off], data[off + 1], data[off + 2], data[off + 3]) as u64)
    } else {
        Err(failure)
    }
}

fn rd_time(data: &[u8], off: u64, failure: IfoError) -> (r: Result<u64, IfoError>)
    requires
        offset_in_reach(off as int),
    ensures
        r == time_at(data@, off as int, failure),
        r matches Ok(t) ==> t < 0x10_0000_0000,
{
    if off + 4 <= data.len() as u64 {
        let i: usize = off as usize;
        Ok(decode_dvd_time([data[i], data[i + 1], data[i + 2], data[i + 3]]))
    } else {
        Err(failure)
    }
}

// ---------------------------------------------------------------------------
// VMG (VIDEO_TS.IFO)
// ---------------------------------------------------------------------------

#[derive(Debug, Clone, Copy, PartialEq, Eq, Structural)]
pub struct VmgTitle {
    /// 1-based VMG title number (what the user selects).
    pub title_nr: u32,
    pub nr_of_angles: u8,
    pub nr_of_ptts: u16,
    /// Which VTS_nn holds this title.
    pub title_set_nr: u8,
    /// 1-based title number inside that VTS.
    pub vts_ttn: u8,
}

/// Entry `i` of the title table at `table`.
pub open spec fn vmg_title_at(data: Seq<u8>, table: int, i: int) -> Result<VmgTitle, IfoError> {
    let e = table + 8 + i * 12;
    match (byte_at(data, e + 1), u16_at(data, e + 2), byte_at(data, e + 6), byte_at(data, e + 7)) {
        (Err(x), _, _, _) => Err(x),
        (_, Err(x), _, _) => Err(x),
        (_, _, Err(x), _) => Err(x),
        (_, _, _, Err(x)) => Err(x),
        (Ok(angles), Ok(ptts), Ok(set), Ok(ttn)) => Ok(
            VmgTitle {
                title_nr: (i + 1) as u32,
                nr_of_angles: angles,
                nr_of_ptts: ptts,
                title_set_nr: set,
                vts_ttn: ttn,
            },
        ),
    }
}

/// The entries of the title table at `table`.
pub open spec fn vmg_titles(data: Seq<u8>, table: int) -> spec_fn(int) -> Result<
    VmgTitle,
    IfoError,
> {
    |i: int| vmg_title_at(data, table, i)
}

/// What a VIDEO_TS.IFO says: its titles in table order, or why it cannot be
/// used. The sector of the table stands at 0xC4, the number of titles at the
/// start of the table.
pub open spec fn vmg_of(data: Seq<u8>) -> Result<Seq<VmgTitle>, IfoError> {
    if !starts_with(data, vmg_magic()) {
        Err(IfoError::NotVmg)
    } else {
        match u32_at(data, 0xC4) {
            Err(x) => Err(x),
            Ok(sector) => match u16_at(data, sector * 2048) {
                Err(x) => Err(x),
                Ok(count) => gather::gather(count as nat, vmg_titles(data, sector * 2048)),
            },
        }
    }
}

fn parse_vmg_title(data: &[u8], table: u64, i: u64) -> (r: Result<VmgTitle, IfoError>)
    requires
        table <= 0x1000_0000_0000,
        i < 0x1_0000,
    ensures
        r == vmg_title_at(data@, table as int, i as int),
{
    let e: u64 = table + 8 + i * 12;
    let nr_of_angles: u8 = match rd_u8(data, e + 1) {
        Ok(v) => v,
        Err(x) => return Err(x),
    };
    let nr_of_ptts: u16 = match rd_u16(data, e + 2) {
        Ok(v) => v,
        Err(x) => return Err(x),
    };
    let title_set_nr: u8 = match rd_u8(data, e + 6) {
        Ok(v) => v,
        Err(x) => return Err(x),
    };
    let vts_ttn: u8 = match rd_u8(data, e + 7) {
        Ok(v) => v,
        Err(x) => return Err(x),
    };
    Ok(VmgTitle { title_nr: i as u32 + 1, nr_of_angles, nr_of_ptts, title_set_nr, vts_ttn })
}

/// Parse VIDEO_TS.IFO: the TT_SRPT title table (sector pointer at 0xC4).
pub fn parse_vmg(data: &[u8]) -> (r: Result<Vec<VmgTitle>, IfoError>)
    ensures
        match r {
            Ok(titles) => vmg_of(data@) == Ok::<Seq<VmgTitle>, IfoError>(titles@),
            Err(x) => vmg_of(data@) == Err::<Seq<VmgTitle>, IfoError>(x),
        },
{
    let magic: [u8; 12] = [0x44, 0x56, 0x44, 0x56, 0x49, 0x44, 0x45, 0x4F, 0x2D, 0x56, 0x4D, 0x47];
    assert(magic@ == vmg_magic());
    if !has_magic(data, &magic) {
        return Err(IfoError::NotVmg);
    }
    let table: u64 = match rd_u32(data, 0xC4) {
        Ok(sector) => sector as u64 * SECTOR as u64,
        Err(x) => return Err(x),
    };
    let count: u16 = match rd_u16(data, table) {
        Ok(v) => v,
        Err(x) => return Err(x),
    };
    let mut titles: Vec<VmgTitle> = Vec::new();
    let mut i: u64 = 0;
    let ghost reader = vmg_titles(data@, table as int);
    while i < count as u64
        invariant
            i <= count,
            table <= 0x1000_0000_0000,
            reader == vmg_titles(data@, table as int),
            vmg_of(data@) == gather::gather(count as nat, reader),
            gather::gather(i as nat, reader) == Ok::<Seq<VmgTitle>, IfoError>(titles@),
        decreases count - i,
    {
        match parse_vmg_title(data, table, i) {
            Ok(title) => {
                titles.push(title);
            },
            Err(x) => {
                proof {
                    gather::lemma_gather_fails((i + 1) as nat, count as nat, reader);
                }
                return Err(x);
            },
        }
        i = i + 1;
    }
    Ok(titles)
}

// ---------------------------------------------------------------------------
// VTS (VTS_nn_0.IFO)
// ---------------------------------------------------------------------------

#[derive(Debug, Clone, Copy, PartialEq, Eq, Structural)]
pub enum AudioCoding {
    Ac3,
    Mpeg1,
    Mpeg2Ext,
    Lpcm,
    Dts,
    Unknown(u8),
}

impl AudioCoding {
    /// The coding that the three format bits of an audio attribute name.
    pub open spec fn of_attr(bits: u8) -> AudioCoding {
        if bits == 0 {
            AudioCoding::Ac3
        } else if bits == 2 {
            AudioCoding::Mpeg1
        } else if bits == 3 {
            AudioCoding::Mpeg2Ext
        } else if bits == 4 {
            AudioCoding::Lpcm
        } else if bits == 6 {
            AudioCoding::Dts
        } else {
            AudioCoding::Unknown(bits)
        }
    }

    /// The HDMV coding-type constant that stands for this coding.
    pub open spec fn bd_coding_type(self) -> u8 {
        match self {
            AudioCoding::Ac3 => 0x81,
            AudioCoding::Dts => 0x82,
            AudioCoding::Lpcm => 0x80,
            AudioCoding::Mpeg1 => 0x03,
            AudioCoding::Mpeg2Ext => 0x03,
            AudioCoding::Unknown(_) => 0x00,
        }
    }

    /// The first MPEG-PS stream id of this coding.
    pub open spec fn first_stream_id(self) -> int {
        match self {
            AudioCoding::Ac3 => 0x80,
            AudioCoding::Dts => 0x88,
            AudioCoding::Lpcm => 0xA0,
            AudioCoding::Mpeg1 => 0x1C0,
            AudioCoding::Mpeg2Ext => 0x1C0,
            AudioCoding::Unknown(_) => 0x80,
        }
    }

    fn from_attr(bits: u8) -> (r: Self)
        ensures
            r == AudioCoding::of_attr(bits),
    {
        match bits {
            0 => AudioCoding::Ac3,
            2 => AudioCoding::Mpeg1,
            3 => AudioCoding::Mpeg2Ext,
            4 => AudioCoding::Lpcm,
            6 => AudioCoding::Dts,
            other => AudioCoding::Unknown(other),
        }
    }

    /// Map onto the Blu-ray HDMV coding-type constants that are used for
    /// display (see `format_coding_type`).
    pub fn as_bd_coding_type(&self) -> (r: u8)
        ensures
            r == self.bd_coding_type(),
    {
        match self {
            AudioCoding::Ac3 => 0x81,
            AudioCoding::Dts => 0x82,
            AudioCoding::Lpcm => 0x80,
            AudioCoding::Mpeg1 => 0x03,
            AudioCoding::Mpeg2Ext => 0x03,
            AudioCoding::Unknown(_) => 0x00,
        }
    }

    /// The name of the coding, as listings show it.
    pub open spec fn name_text(self) -> Seq<char> {
        match self {
            AudioCoding::Ac3 => "Ac3"@,
            AudioCoding::Mpeg1 => "Mpeg1"@,
            AudioCoding::Mpeg2Ext => "Mpeg2Ext"@,
            AudioCoding::Lpcm => "Lpcm"@,
            AudioCoding::Dts => "Dts"@,
            AudioCoding::Unknown(bits) => "Unknown("@ + text::decimal(bits as nat) + ")"@,
        }
    }

    /// The name of the coding, as listings show it.
    pub fn name(&self) -> (r: String)
        ensures
            r@ == self.name_text(),
    {
        match self {
            AudioCoding::Ac3 => "Ac3".to_owned(),
            AudioCoding::Mpeg1 => "Mpeg1".to_owned(),
            AudioCoding::Mpeg2Ext => "Mpeg2Ext".to_owned(),
            AudioCoding::Lpcm => "Lpcm".to_owned(),
            AudioCoding::Dts => "Dts".to_owned(),
            AudioCoding::Unknown(bits) => {
                let mut out = "Unknown(".to_owned();
                text::push_decimal(&mut out, *bits as u64);
                out.append(")");
                out
            },
        }
    }
}

/// MPEG-PS stream id for audio substream number `n`, as ffmpeg's mpeg
/// demuxer reports it in `AVStream.id`.
pub fn audio_stream_id(coding: AudioCoding, n: u8) -> (r: u16)
    ensures
        r == coding.first_stream_id() + n,
{
    match coding {
        AudioCoding::Ac3 => 0x80 + n as u16,
        AudioCoding::Dts => 0x88 + n as u16,
        AudioCoding::Lpcm => 0xA0 + n as u16,
        AudioCoding::Mpeg1 => 0x1C0 + n as u16,
        AudioCoding::Mpeg2Ext => 0x1C0 + n as u16,
        AudioCoding::Unknown(_) => 0x80 + n as u16,
    }
}

/// MPEG-PS stream id for subpicture substream number `n`.
pub fn subp_stream_id(n: u8) -> (r: u16)
    ensures
        r == 0x20 + n,
{
    0x20 + n as u16
}

/// The substream numbers that control words can hold (three bits) never make
/// two known codings share a stream id, MPEG audio of either layer counted as
/// one coding.
pub proof fn audio_stream_ids_are_distinct(a: AudioCoding, m: u8, b: AudioCoding, n: u8)
    requires
        m < 8,
        n < 8,
        !(a is Unknown),
        !(b is Unknown),
        a.first_stream_id() + m == b.first_stream_id() + n,
    ensures
        m == n,
        a.bd_coding_type() == b.bd_coding_type(),
{
}

/// No audio stream id is a subpicture stream id: subpicture substream numbers
/// have five bits.
pub proof fn audio_and_subpicture_ids_differ(coding: AudioCoding, m: u8, n: u8)
    requires
        n < 32,
    ensures
        coding.first_stream_id() + m != 0x20 + n,
{
}

#[derive(Debug, Clone)]
pub struct AudioAttr {
    pub coding: AudioCoding,
    /// ISO 639-1 two-letter code, if the disc provides one.
    pub lang: Option<String>,
    pub channels: u8,
}

/// What an `AudioAttr` says.
pub ghost struct AudioAttrModel {
    pub coding: AudioCoding,
    pub lang: Option<Seq<char>>,
    pub channels: u8,
}

impl DeepView for AudioAttr {
    type V = AudioAttrModel;

    open spec fn deep_view(&self) -> AudioAttrModel {
        AudioAttrModel {
            coding: self.coding,
            lang: self.lang.deep_view(),
            channels: self.channels,
        }
    }
}

#[derive(Debug, Clone)]
pub struct SubpAttr {
    pub lang: Option<String>,
}

/// What a `SubpAttr` says.
pub ghost struct SubpAttrModel {
    pub lang: Option<Seq<char>>,
}

impl DeepView for SubpAttr {
    type V = SubpAttrModel;

    open spec fn deep_view(&self) -> SubpAttrModel {
        SubpAttrModel { lang: self.lang.deep_view() }
    }
}

#[derive(Debug, Clone, Copy, PartialEq, Eq, Structural)]
pub struct CellPlayback {
    /// Bits: 0b00 = normal cell, 0b01 = first of angle block,
    /// 0b10 = middle, 0b11 = last. For angle-1 extraction keep 0b00/0b01.
    pub block_mode: u8,
    /// Playing time in 90 kHz ticks.
    pub duration_ticks: u64,
    pub first_sector: u32,
    pub last_sector: u32,
}

impl CellPlayback {
    /// Whether this cell belongs to angle 1 (or no angle block at all).
    pub open spec fn in_angle1(self) -> bool {
        self.block_mode <= 1
    }

    /// Whether this cell belongs to angle 1 (or no angle block at all).
    pub fn is_angle1(&self) -> (r: bool)
        ensures
            r == self.in_angle1(),
    {
        self.block_mode <= 0b01
    }
}

#[derive(Debug, Clone)]
pub struct Pgc {
    /// Playing time in 90 kHz ticks.
    pub playback_ticks: u64,
    /// Per audio-attr-index control word; bit 15 = stream present,
    /// substream number n = (ctrl >> 8) & 7.
    pub audio_control: [u16; 8],
    /// Per subp-attr-index control word; bit 31 = stream present. Substream
    /// numbers per display mode: byte0 = 4:3, byte1 = wide, byte2 =
    /// letterbox, byte3 = pan&scan (each & 0x1F).
    pub subp_control: [u32; 32],
    /// 1-based entry cell number for each program (chapter starts).
    pub program_entry_cells: Vec<u8>,
    pub cells: Vec<CellPlayback>,
}

/// What a `Pgc` says.
pub ghost struct PgcModel {
    pub playback_ticks: u64,
    pub audio_control: Seq<u16>,
    pub subp_control: Seq<u32>,
    pub program_entry_cells: Seq<u8>,
    pub cells: Seq<CellPlayback>,
}

impl DeepView for Pgc {
    type V = PgcModel;

    open spec fn deep_view(&self) -> PgcModel {
        PgcModel {
            playback_ticks: self.playback_ticks,
            audio_control: self.audio_control@,
            subp_control: self.subp_control@,
            program_entry_cells: self.program_entry_cells@,
            cells: self.cells@,
        }
    }
}

/// The ticks that the angle-1 cells among `cells` play, one after another.
pub open spec fn angle1_ticks(cells: Seq<CellPlayback>) -> nat
    decreases cells.len(),
{
    if cells.len() == 0 {
        0
    } else {
        angle1_ticks(cells.drop_last()) + if cells.last().in_angle1() {
            cells.last().duration_ticks as nat
        } else {
            0
        }
    }
}

/// Cells that come first never play longer than all of them.
pub proof fn lemma_angle1_ticks_grow(cells: Seq<CellPlayback>, k: int)
    requires
        0 <= k <= cells.len(),
    ensures
        angle1_ticks(cells.take(k)) <= angle1_ticks(cells),
    decreases cells.len() - k,
{
    if k == cells.len() {
        assert(cells.take(k) == cells);
    } else {
        lemma_angle1_ticks_grow(cells, k + 1);
        assert(cells.take(k + 1).drop_last() == cells.take(k));
    }
}

impl PgcModel {
    /// The timeline fits a 64-bit tick count and the programs can be numbered.
    pub open spec fn well_formed(self) -> bool {
        &&& angle1_ticks(self.cells) <= u64::MAX
        &&& self.audio_control.len() == 8
        &&& self.subp_control.len() == 32
        &&& self.program_entry_cells.len() <= u32::MAX
    }
}

/// Cells of bounded length play no longer than their number times the bound.
proof fn lemma_angle1_ticks_bounded(cells: Seq<CellPlayback>)
    requires
        forall|i: int| 0 <= i < cells.len() ==> (#[trigger] cells[i]).duration_ticks
            < 0x10_0000_0000,
    ensures
        angle1_ticks(cells) <= cells.len() * 0x10_0000_0000,
    decreases cells.len(),
{
    if cells.len() > 0 {
        let before = cells.drop_last();
        assert forall|i: int| 0 <= i < before.len() implies (#[trigger] before[i]).duration_ticks
            < 0x10_0000_0000 by {
            assert(before[i] == cells[i]);
        }
        lemma_angle1_ticks_bounded(before);
    }
}

impl Pgc {
    /// Start time (90 kHz ticks) of each cell in the angle-1 output timeline
    /// (skipped angle cells contribute no duration).
    pub fn cell_start_times(&self) -> (r: Vec<u64>)
        requires
            self.deep_view().well_formed(),
        ensures
            r@ == Seq::new(
                self.cells@.len(),
                |i: int| angle1_ticks(self.cells@.take(i)) as u64,
            ),
    {
        let mut starts: Vec<u64> = Vec::new();
        let mut acc: u64 = 0;
        let mut i: usize = 0;
        while i < self.cells.len()
            invariant
                i <= self.cells@.len(),
                angle1_ticks(self.cells@) <= u64::MAX,
                acc == angle1_ticks(self.cells@.take(i as int)),
                starts@ == Seq::new(i as nat, |k: int| angle1_ticks(self.cells@.take(k)) as u64),
            decreases self.cells@.len() - i,
        {
            let cell = self.cells[i];
            starts.push(acc);
            proof {
                lemma_angle1_ticks_grow(self.cells@, i + 1);
                assert(self.cells@.take(i + 1).drop_last() == self.cells@.take(i as int));
            }
            if cell.is_angle1() {
                acc = acc + cell.duration_ticks;
            }
            i = i + 1;
        }
        starts
    }
}

/// The angle-1 timeline starts at zero, never runs backwards, and moves on by
/// a cell's own length exactly where the cell is played.
pub proof fn cell_starts_follow_the_timeline(cells: Seq<CellPlayback>, i: int)
    requires
        0 <= i < cells.len(),
    ensures
        angle1_ticks(cells.take(0)) == 0,
        cells[i].in_angle1() ==> angle1_ticks(cells.take(i + 1)) == angle1_ticks(cells.take(i))
            + cells[i].duration_ticks,
        !cells[i].in_angle1() ==> angle1_ticks(cells.take(i + 1)) == angle1_ticks(cells.take(i)),
{
    assert(cells.take(i + 1).drop_last() == cells.take(i));
}

#[derive(Debug, Clone)]
pub struct VtsInfo {
    /// True when the VTS video attribute says 16:9.
    pub widescreen: bool,
    pub audio_attrs: Vec<AudioAttr>,
    pub subp_attrs: Vec<SubpAttr>,
    /// PTT (chapter) table per vts_ttn: `title_ptts[ttn-1]` = [(pgcn, pgn)].
    pub title_ptts: Vec<Vec<(u16, u16)>>,
    /// PGCs by 1-based pgcn: `pgcs[pgcn-1]`.
    pub pgcs: Vec<Pgc>,
}

/// What a `VtsInfo` says.
pub ghost struct VtsModel {
    pub widescreen: bool,
    pub audio_attrs: Seq<AudioAttrModel>,
    pub subp_attrs: Seq<SubpAttrModel>,
    pub title_ptts: Seq<Seq<(u16, u16)>>,
    pub pgcs: Seq<PgcModel>,
}

/// The rows of a table.
pub open spec fn rows(table: Seq<Vec<(u16, u16)>>) -> Seq<Seq<(u16, u16)>> {
    Seq::new(table.len(), |i: int| table[i]@)
}

impl DeepView for VtsInfo {
    type V = VtsModel;

    open spec fn deep_view(&self) -> VtsModel {
        VtsModel {
            widescreen: self.widescreen,
            audio_attrs: self.audio_attrs.deep_view(),
            subp_attrs: self.subp_attrs.deep_view(),
            title_ptts: rows(self.title_ptts@),
            pgcs: self.pgcs.deep_view(),
        }
    }
}

impl VtsModel {
    /// The number of the PGC that a title plays: the one its first PTT points
    /// at. Titles and PGCs are numbered from 1.
    pub open spec fn pgcn_for_title(self, vts_ttn: u8) -> Option<u16> {
        let row = vts_ttn - 1;
        if 0 <= row < self.title_ptts.len() && self.title_ptts[row].len() > 0 {
            let pgcn = self.title_ptts[row][0].0;
            if 1 <= pgcn <= self.pgcs.len() {
                Some(pgcn)
            } else {
                None
            }
        } else {
            None
        }
    }
}

impl VtsInfo {
    /// The PGC a title plays (the one its first PTT points at).
    pub fn pgc_for_title(&self, vts_ttn: u8) -> (r: Option<(u16, &Pgc)>)
        ensures
            match r {
                Some((pgcn, pgc)) => {
                    &&& self.deep_view().pgcn_for_title(vts_ttn) == Some(pgcn)
                    &&& 1 <= pgcn <= self.pgcs@.len()
                    &&& *pgc == self.pgcs@[pgcn - 1]
                },
                None => self.deep_view().pgcn_for_title(vts_ttn) is None,
            },
    {
        if vts_ttn == 0 || vts_ttn as usize > self.title_ptts.len() {
            return None;
        }
        let row: usize = vts_ttn as usize - 1;
        assert(self.deep_view().title_ptts[row as int] == self.title_ptts@[row as int]@);
        if self.title_ptts[row].len() == 0 {
            return None;
        }
        let pgcn: u16 = self.title_ptts[row][0].0;
        if pgcn == 0 || pgcn as usize > self.pgcs.len() {
            return None;
        }
        Some((pgcn, &self.pgcs[pgcn as usize - 1]))
    }
}

// --- language codes ---

/// Whether a byte is an ASCII lower-case letter.
pub open spec fn is_lower(b: u8) -> bool {
    0x61 <= b <= 0x7A
}

/// The two-letter language code at `off`, where the data holds one.
pub open spec fn lang_at(data: Seq<u8>, off: int) -> Option<Seq<char>> {
    if off + 2 <= data.len() && is_lower(data[off]) && is_lower(data[off + 1]) {
        Some(seq![data[off] as char, data[off + 1] as char])
    } else {
        None
    }
}

fn parse_lang(data: &[u8], off: u64) -> (r: Option<String>)
    requires
        offset_in_reach(off as int),
    ensures
        r.deep_view() == lang_at(data@, off as int),
{
    if off + 2 > data.len() as u64 {
        return None;
    }
    let a: u8 = data[off as usize];
    let b: u8 = data[off as usize + 1];
    if a >= 0x61 && a <= 0x7A && b >= 0x61 && b <= 0x7A {
        let mut out = String::new();
        out.push(a as char);
        out.push(b as char);
        assert(out@ == seq![data@[off as int] as char, data@[off + 1] as char]);
        Some(out)
    } else {
        None
    }
}

// --- VTSI_MAT attributes ---

/// Audio attribute `i`: eight bytes from 0x204 on.
pub open spec fn audio_attr_at(data: Seq<u8>, i: int) -> Result<AudioAttrModel, IfoError> {
    let a = 0x204 + i * 8;
    match (byte_at(data, a), byte_at(data, a + 1)) {
        (Err(x), _) => Err(x),
        (_, Err(x)) => Err(x),
        (Ok(byte0), Ok(byte1)) => Ok(
            AudioAttrModel {
                coding: AudioCoding::of_attr(byte0 / 32),
                lang: if (byte0 / 4) % 4 == 1 {
                    lang_at(data, a + 2)
                } else {
                    None
                },
                channels: (byte1 % 8 + 1) as u8,
            },
        ),
    }
}

/// The audio attributes.
pub open spec fn audio_attrs_at(data: Seq<u8>) -> spec_fn(int) -> Result<AudioAttrModel, IfoError> {
    |i: int| audio_attr_at(data, i)
}

/// The number that a table gives, but at most `most`.
pub open spec fn at_most(n: u16, most: nat) -> nat {
    if n <= most {
        n as nat
    } else {
        most
    }
}

/// The audio attributes: their number stands at 0x202, at most 8 count.
pub open spec fn audio_section(data: Seq<u8>) -> Result<Seq<AudioAttrModel>, IfoError> {
    match u16_at(data, 0x202) {
        Err(x) => Err(x),
        Ok(n) => gather::gather(at_most(n, 8), audio_attrs_at(data)),
    }
}

fn parse_audio_attr(data: &[u8], i: u64) -> (r: Result<AudioAttr, IfoError>)
    requires
        i < 8,
    ensures
        match r {
            Ok(attr) => audio_attr_at(data@, i as int) == Ok::<AudioAttrModel, IfoError>(
                attr.deep_view(),
            ),
            Err(x) => audio_attr_at(data@, i as int) == Err::<AudioAttrModel, IfoError>(x),
        },
{
    let a: u64 = 0x204 + i * 8;
    let byte0: u8 = match rd_u8(data, a) {
        Ok(v) => v,
        Err(x) => return Err(x),
    };
    let byte1: u8 = match rd_u8(data, a + 1) {
        Ok(v) => v,
        Err(x) => return Err(x),
    };
    let lang = if (byte0 / 4) % 4 == 1 {
        parse_lang(data, a + 2)
    } else {
        None
    };
    Ok(AudioAttr { coding: AudioCoding::from_attr(byte0 / 32), lang, channels: byte1 % 8 + 1 })
}

fn parse_audio_attrs(data: &[u8]) -> (r: Result<Vec<AudioAttr>, IfoError>)
    ensures
        match r {
            Ok(attrs) => audio_section(data@) == Ok::<Seq<AudioAttrModel>, IfoError>(
                attrs.deep_view(),
            ) && attrs@.len() <= 8,
            Err(x) => audio_section(data@) == Err::<Seq<AudioAttrModel>, IfoError>(x),
        },
{
    let listed: u16 = match rd_u16(data, 0x202) {
        Ok(v) => v,
        Err(x) => return Err(x),
    };
    let count: u64 = if listed < 8 {
        listed as u64
    } else {
        8
    };
    let mut attrs: Vec<AudioAttr> = Vec::new();
    let mut i: u64 = 0;
    let ghost reader = audio_attrs_at(data@);
    assert(attrs.deep_view() == Seq::<AudioAttrModel>::empty());
    while i < count
        invariant
            i <= count <= 8,
            attrs@.len() == i,
            reader == audio_attrs_at(data@),
            audio_section(data@) == gather::gather(count as nat, reader),
            gather::gather(i as nat, reader) == Ok::<Seq<AudioAttrModel>, IfoError>(
                attrs.deep_view(),
            ),
        decreases count - i,
    {
        match parse_audio_attr(data, i) {
            Ok(attr) => {
                let ghost before = attrs.deep_view();
                let ghost model = attr.deep_view();
                attrs.push(attr);
                assert(attrs.deep_view() == before.push(model));
            },
            Err(x) => {
                proof {
                    gather::lemma_gather_fails((i + 1) as nat, count as nat, reader);
                }
                return Err(x);
            },
        }
        i = i + 1;
    }
    Ok(attrs)
}

/// Subpicture attribute `i`: six bytes from 0x256 on.
pub open spec fn subp_attr_at(data: Seq<u8>, i: int) -> Result<SubpAttrModel, IfoError> {
    let a = 0x256 + i * 6;
    match byte_at(data, a) {
        Err(x) => Err(x),
        Ok(byte0) => Ok(
            SubpAttrModel {
                lang: if byte0 % 4 == 1 {
                    lang_at(data, a + 2)
                } else {
                    None
                },
            },
        ),
    }
}

/// The subpicture attributes.
pub open spec fn subp_attrs_at(data: Seq<u8>) -> spec_fn(int) -> Result<SubpAttrModel, IfoError> {
    |i: int| subp_attr_at(data, i)
}

/// The subpicture attributes: their number stands at 0x254, at most 32 count.
pub open spec fn subp_section(data: Seq<u8>) -> Result<Seq<SubpAttrModel>, IfoError> {
    match u16_at(data, 0x254) {
        Err(x) => Err(x),
        Ok(n) => gather::gather(at_most(n, 32), subp_attrs_at(data)),
    }
}

fn parse_subp_attr(data: &[u8], i: u64) -> (r: Result<SubpAttr, IfoError>)
    requires
        i < 32,
    ensures
        match r {
            Ok(attr) => subp_attr_at(data@, i as int) == Ok::<SubpAttrModel, IfoError>(
                attr.deep_view(),
            ),
            Err(x) => subp_attr_at(data@, i as int) == Err::<SubpAttrModel, IfoError>(x),
        },
{
    let a: u64 = 0x256 + i * 6;
    let byte0: u8 = match rd_u8(data, a) {
        Ok(v) => v,
        Err(x) => return Err(x),
    };
    let lang = if byte0 % 4 == 1 {
        parse_lang(data, a + 2)
    } else {
        None
    };
    Ok(SubpAttr { lang })
}

fn parse_subp_attrs(data: &[u8]) -> (r: Result<Vec<SubpAttr>, IfoError>)
    ensures
        match r {
            Ok(attrs) => subp_section(data@) == Ok::<Seq<SubpAttrModel>, IfoError>(
                attrs.deep_view(),
            ) && attrs@.len() <= 32,
            Err(x) => subp_section(data@) == Err::<Seq<SubpAttrModel>, IfoError>(x),
        },
{
    let listed: u16 = match rd_u16(data, 0x254) {
        Ok(v) => v,
        Err(x) => return Err(x),
    };
    let count: u64 = if listed < 32 {
        listed as u64
    } else {
        32
    };
    let mut attrs: Vec<SubpAttr> = Vec::new();
    let mut i: u64 = 0;
    let ghost reader = subp_attrs_at(data@);
    assert(attrs.deep_view() == Seq::<SubpAttrModel>::empty());
    while i < count
        invariant
            i <= count <= 32,
            attrs@.len() == i,
            reader == subp_attrs_at(data@),
            subp_section(data@) == gather::gather(count as nat, reader),
            gather::gather(i as nat, reader) == Ok::<Seq<SubpAttrModel>, IfoError>(
                attrs.deep_view(),
            ),
        decreases count - i,
    {
        match parse_subp_attr(data, i) {
            Ok(attr) => {
                let ghost before = attrs.deep_view();
                let ghost model = attr.deep_view();
                attrs.push(attr);
                assert(attrs.deep_view() == before.push(model));
            },
            Err(x) => {
                proof {
                    gather::lemma_gather_fails((i + 1) as nat, count as nat, reader);
                }
                return Err(x);
            },
        }
        i = i + 1;
    }
    Ok(attrs)
}

// --- VTS_PTT_SRPT: chapter search pointer table ---

/// The (pgcn, pgn) pair at `off`.
pub open spec fn ptt_at(data: Seq<u8>, off: int) -> Result<(u16, u16), IfoError> {
    match (u16_at(data, off), u16_at(data, off + 2)) {
        (Err(x), _) => Err(x),
        (_, Err(x)) => Err(x),
        (Ok(pgcn), Ok(pgn)) => Ok((pgcn, pgn)),
    }
}

/// The pairs from `first` on.
pub open spec fn ptts_at(data: Seq<u8>, first: int) -> spec_fn(int) -> Result<
    (u16, u16),
    IfoError,
> {
    |k: int| ptt_at(data, first + k * 4)
}

/// How many four-byte pairs lie between two offsets.
pub open spec fn pair_count(start: int, end: int) -> nat {
    if end > start {
        ((end - start) / 4) as nat
    } else {
        0
    }
}

/// The chapters of title `i` of `count` in the table at `base`: the pairs from
/// its own offset up to the next title's, the last title's up to `last_byte`.
pub open spec fn title_ptts_at(
    data: Seq<u8>,
    base: int,
    count: int,
    last_byte: int,
    i: int,
) -> Result<Seq<(u16, u16)>, IfoError> {
    match u32_at(data, base + 8 + i * 4) {
        Err(x) => Err(x),
        Ok(start) => if i + 1 < count {
            match u32_at(data, base + 8 + (i + 1) * 4) {
                Err(x) => Err(x),
                Ok(end) => gather::gather(
                    pair_count(start as int, end as int),
                    ptts_at(data, base + start),
                ),
            }
        } else {
            gather::gather(pair_count(start as int, last_byte + 1), ptts_at(data, base + start))
        },
    }
}

/// The chapter lists of all titles in the table at `base`.
pub open spec fn all_title_ptts(
    data: Seq<u8>,
    base: int,
    count: int,
    last_byte: int,
) -> spec_fn(int) -> Result<Seq<(u16, u16)>, IfoError> {
    |i: int| title_ptts_at(data, base, count, last_byte, i)
}

/// The chapter table: its sector stands at 0xC8.
pub open spec fn ptt_section(data: Seq<u8>) -> Result<Seq<Seq<(u16, u16)>>, IfoError> {
    match u32_at(data, 0xC8) {
        Err(x) => Err(x),
        Ok(sector) => {
            let base = sector * 2048;
            match (u16_at(data, base), u32_at(data, base + 4)) {
                (Err(x), _) => Err(x),
                (_, Err(x)) => Err(x),
                (Ok(count), Ok(last_byte)) => gather::gather(
                    count as nat,
                    all_title_ptts(data, base, count as int, last_byte as int),
                ),
            }
        },
    }
}

fn parse_ptts(data: &[u8], first: u64, count: u64) -> (r: Result<Vec<(u16, u16)>, IfoError>)
    requires
        first <= 0x1001_0000_0000,
        count <= 0x1_0000_0000,
    ensures
        match r {
            Ok(ptts) => gather::gather(count as nat, ptts_at(data@, first as int)) == Ok::<
                Seq<(u16, u16)>,
                IfoError,
            >(ptts@),
            Err(x) => gather::gather(count as nat, ptts_at(data@, first as int)) == Err::<
                Seq<(u16, u16)>,
                IfoError,
            >(x),
        },
{
    let mut ptts: Vec<(u16, u16)> = Vec::new();
    let mut k: u64 = 0;
    let ghost reader = ptts_at(data@, first as int);
    while k < count
        invariant
            k <= count <= 0x1_0000_0000,
            first <= 0x1001_0000_0000,
            reader == ptts_at(data@, first as int),
            gather::gather(k as nat, reader) == Ok::<Seq<(u16, u16)>, IfoError>(ptts@),
        decreases count - k,
    {
        let off: u64 = first + k * 4;
        let pgcn: u16 = match rd_u16(data, off) {
            Ok(v) => v,
            Err(x) => {
                proof {
                    gather::lemma_gather_fails((k + 1) as nat, count as nat, reader);
                }
                return Err(x);
            },
        };
        let pgn: u16 = match rd_u16(data, off + 2) {
            Ok(v) => v,
            Err(x) => {
                proof {
                    gather::lemma_gather_fails((k + 1) as nat, count as nat, reader);
                }
                return Err(x);
            },
        };
        ptts.push((pgcn, pgn));
        k = k + 1;
    }
    Ok(ptts)
}

fn parse_title_ptts(data: &[u8], base: u64, count: u64, last_byte: u32, i: u64) -> (r: Result<
    Vec<(u16, u16)>,
    IfoError,
>)
    requires
        base <= 0x1000_0000_0000,
        i < count <= 0xFFFF,
    ensures
        match r {
            Ok(ptts) => title_ptts_at(data@, base as int, count as int, last_byte as int, i as int)
                == Ok::<Seq<(u16, u16)>, IfoError>(ptts@),
            Err(x) => title_ptts_at(data@, base as int, count as int, last_byte as int, i as int)
                == Err::<Seq<(u16, u16)>, IfoError>(x),
        },
{
    let start: u64 = match rd_u32(data, base + 8 + i * 4) {
        Ok(v) => v as u64,
        Err(x) => return Err(x),
    };
    let end: u64 = if i + 1 < count {
        match rd_u32(data, base + 8 + (i + 1) * 4) {
            Ok(v) => v as u64,
            Err(x) => return Err(x),
        }
    } else {
        last_byte as u64 + 1
    };
    let pairs: u64 = if end > start {
        (end - start) / 4
    } else {
        0
    };
    parse_ptts(data, base + start, pairs)
}

fn parse_ptt_table(data: &[u8]) -> (r: Result<Vec<Vec<(u16, u16)>>, IfoError>)
    ensures
        match r {
            Ok(table) => ptt_section(data@) == Ok::<Seq<Seq<(u16, u16)>>, IfoError>(rows(table@)),
            Err(x) => ptt_section(data@) == Err::<Seq<Seq<(u16, u16)>>, IfoError>(x),
        },
{
    let base: u64 = match rd_u32(data, 0xC8) {
        Ok(sector) => sector as u64 * SECTOR as u64,
        Err(x) => return Err(x),
    };
    let count: u64 = match rd_u16(data, base) {
        Ok(v) => v as u64,
        Err(x) => return Err(x),
    };
    let last_byte: u32 = match rd_u32(data, base + 4) {
        Ok(v) => v,
        Err(x) => return Err(x),
    };
    let mut table: Vec<Vec<(u16, u16)>> = Vec::new();
    let mut i: u64 = 0;
    let ghost reader = all_title_ptts(data@, base as int, count as int, last_byte as int);
    assert(rows(table@) == Seq::<Seq<(u16, u16)>>::empty());
    while i < count
        invariant
            i <= count <= 0xFFFF,
            base <= 0x1000_0000_0000,
            reader == all_title_ptts(data@, base as int, count as int, last_byte as int),
            ptt_section(data@) == gather::gather(count as nat, reader),
            gather::gather(i as nat, reader) == Ok::<Seq<Seq<(u16, u16)>>, IfoError>(rows(table@)),
        decreases count - i,
    {
        match parse_title_ptts(data, base, count, last_byte, i) {
            Ok(ptts) => {
                let ghost before = rows(table@);
                let ghost row = ptts@;
                table.push(ptts);
                assert(rows(table@) == before.push(row));
            },
            Err(x) => {
                proof {
                    gather::lemma_gather_fails((i + 1) as nat, count as nat, reader);
                }
                return Err(x);
            },
        }
        i = i + 1;
    }
    Ok(table)
}

// --- VTS_PGCIT: title program chains ---

/// The `n` 16-bit words from `first` on.
pub open spec fn words16(data: Seq<u8>, first: int) -> spec_fn(int) -> Result<u16, IfoError> {
    |j: int| u16_at(data, first + j * 2)
}

/// The `n` 32-bit words from `first` on.
pub open spec fn words32(data: Seq<u8>, first: int) -> spec_fn(int) -> Result<u32, IfoError> {
    |j: int| u32_at(data, first + j * 4)
}

/// The bytes from `first` on.
pub open spec fn bytes_from(data: Seq<u8>, first: int) -> spec_fn(int) -> Result<u8, IfoError> {
    |p: int| byte_at(data, first + p)
}

/// The cell playback entry at `e`.
pub open spec fn cell_at(data: Seq<u8>, e: int) -> Result<CellPlayback, IfoError> {
    match byte_at(data, e) {
        Err(x) => Err(x),
        Ok(cat) => match time_at(data, e + 4, IfoError::TruncatedCellTime) {
            Err(x) => Err(x),
            Ok(ticks) => match (u32_at(data, e + 8), u32_at(data, e + 20)) {
                (Err(x), _) => Err(x),
                (_, Err(x)) => Err(x),
                (Ok(first), Ok(last)) => Ok(
                    CellPlayback {
                        block_mode: cat / 64,
                        duration_ticks: ticks,
                        first_sector: first,
                        last_sector: last,
                    },
                ),
            },
        },
    }
}

/// The cell playback entries from `first` on, 24 bytes each.
pub open spec fn cells_from(data: Seq<u8>, first: int) -> spec_fn(int) -> Result<
    CellPlayback,
    IfoError,
> {
    |c: int| cell_at(data, first + c * 24)
}

/// The programs and cells of the PGC at `base`, which has `programs` programs
/// and `cell_count` cells.
pub open spec fn pgc_lists_at(data: Seq<u8>, base: int, programs: u8, cell_count: u8) -> Result<
    (Seq<u8>, Seq<CellPlayback>),
    IfoError,
> {
    match (u16_at(data, base + 0xE6), u16_at(data, base + 0xE8)) {
        (Err(x), _) => Err(x),
        (_, Err(x)) => Err(x),
        (Ok(map_off), Ok(cell_off)) => match (
            gather::gather(programs as nat, bytes_from(data, base + map_off)),
            gather::gather(cell_count as nat, cells_from(data, base + cell_off)),
        ) {
            (Err(x), _) => Err(x),
            (_, Err(x)) => Err(x),
            (Ok(entries), Ok(cells)) => Ok((entries, cells)),
        },
    }
}

/// The PGC at `base`.
pub open spec fn pgc_at(data: Seq<u8>, base: int) -> Result<PgcModel, IfoError> {
    match (byte_at(data, base + 2), byte_at(data, base + 3)) {
        (Err(x), _) => Err(x),
        (_, Err(x)) => Err(x),
        (Ok(programs), Ok(cell_count)) => match time_at(
            data,
            base + 4,
            IfoError::TruncatedPgcTime,
        ) {
            Err(x) => Err(x),
            Ok(ticks) => match (
                gather::gather(8, words16(data, base + 0x0C)),
                gather::gather(32, words32(data, base + 0x1C)),
            ) {
                (Err(x), _) => Err(x),
                (_, Err(x)) => Err(x),
                (Ok(audio), Ok(subp)) => match pgc_lists_at(data, base, programs, cell_count) {
                    Err(x) => Err(x),
                    Ok((entries, cells)) => Ok(
                        PgcModel {
                            playback_ticks: ticks,
                            audio_control: audio,
                            subp_control: subp,
                            program_entry_cells: entries,
                            cells,
                        },
                    ),
                },
            },
        },
    }
}

/// Entry `i` of the PGC table at `base`: the offset of its PGC stands in the
/// second half of the eight-byte entry.
pub open spec fn pgc_entry_at(data: Seq<u8>, base: int, i: int) -> Result<PgcModel, IfoError> {
    match u32_at(data, base + 8 + i * 8 + 4) {
        Err(x) => Err(x),
        Ok(off) => pgc_at(data, base + off),
    }
}

/// The PGCs of the table at `base`.
pub open spec fn pgc_entries_at(data: Seq<u8>, base: int) -> spec_fn(int) -> Result<
    PgcModel,
    IfoError,
> {
    |i: int| pgc_entry_at(data, base, i)
}

/// The PGC table: its sector stands at 0xCC.
pub open spec fn pgc_section(data: Seq<u8>) -> Result<Seq<PgcModel>, IfoError> {
    match u32_at(data, 0xCC) {
        Err(x) => Err(x),
        Ok(sector) => match u16_at(data, sector * 2048) {
            Err(x) => Err(x),
            Ok(count) => gather::gather(count as nat, pgc_entries_at(data, sector * 2048)),
        },
    }
}

fn parse_audio_control(data: &[u8], first: u64) -> (r: Result<[u16; 8], IfoError>)
    requires
        first <= 0x1100_0000_0000,
    ensures
        match r {
            Ok(words) => gather::gather(8, words16(data@, first as int)) == Ok::<
                Seq<u16>,
                IfoError,
            >(words@),
            Err(x) => gather::gather(8, words16(data@, first as int)) == Err::<Seq<u16>, IfoError>(
                x,
            ),
        },
{
    let mut words: [u16; 8] = [0u16; 8];
    assert(words@.take(0) == Seq::<u16>::empty());
    let ghost reader = words16(data@, first as int);
    let mut j: usize = 0;
    while j < 8
        invariant
            j <= 8,
            first <= 0x1100_0000_0000,
            words@.len() == 8,
            reader == words16(data@, first as int),
            gather::gather(j as nat, reader) == Ok::<Seq<u16>, IfoError>(words@.take(j as int)),
        decreases 8 - j,
    {
        match rd_u16(data, first + j as u64 * 2) {
            Ok(v) => {
                let ghost before = words@;
                words[j] = v;
                assert(words@.take(j + 1) == before.take(j as int).push(v));
            },
            Err(x) => {
                proof {
                    gather::lemma_gather_fails((j + 1) as nat, 8, reader);
                }
                return Err(x);
            },
        }
        j = j + 1;
    }
    assert(words@.take(8) == words@);
    Ok(words)
}

fn parse_subp_control(data: &[u8], first: u64) -> (r: Result<[u32; 32], IfoError>)
    requires
        first <= 0x1100_0000_0000,
    ensures
        match r {
            Ok(words) => gather::gather(32, words32(data@, first as int)) == Ok::<
                Seq<u32>,
                IfoError,
            >(words@),
            Err(x) => gather::gather(32, words32(data@, first as int)) == Err::<
                Seq<u32>,
                IfoError,
            >(x),
        },
{
    let mut words: [u32; 32] = [0u32; 32];
    assert(words@.take(0) == Seq::<u32>::empty());
    let ghost reader = words32(data@, first as int);
    let mut j: usize = 0;
    while j < 32
        invariant
            j <= 32,
            first <= 0x1100_0000_0000,
            words@.len() == 32,
            reader == words32(data@, first as int),
            gather::gather(j as nat, reader) == Ok::<Seq<u32>, IfoError>(words@.take(j as int)),
        decreases 32 - j,
    {
        match rd_u32(data, first + j as u64 * 4) {
            Ok(v) => {
                let ghost before = words@;
                words[j] = v;
                assert(words@.take(j + 1) == before.take(j as int).push(v));
            },
            Err(x) => {
                proof {
                    gather::lemma_gather_fails((j + 1) as nat, 32, reader);
                }
                return Err(x);
            },
        }
        j = j + 1;
    }
    assert(words@.take(32) == words@);
    Ok(words)
}

fn parse_cell(data: &[u8], e: u64) -> (r: Result<CellPlayback, IfoError>)
    requires
        e <= 0x1200_0000_0000,
    ensures
        r == cell_at(data@, e as int),
        r matches Ok(cell) ==> cell.duration_ticks < 0x10_0000_0000,
{
    let cat: u8 = match rd_u8(data, e) {
        Ok(v) => v,
        Err(x) => return Err(x),
    };
    let duration_ticks: u64 = match rd_time(data, e + 4, IfoError::TruncatedCellTime) {
        Ok(v) => v,
        Err(x) => return Err(x),
    };
    let first_sector: u32 = match rd_u32(data, e + 8) {
        Ok(v) => v,
        Err(x) => return Err(x),
    };
    let last_sector: u32 = match rd_u32(data, e + 20) {
        Ok(v) => v,
        Err(x) => return Err(x),
    };
    Ok(CellPlayback { block_mode: cat / 64, duration_ticks, first_sector, last_sector })
}

fn parse_program_map(data: &[u8], first: u64, count: u8) -> (r: Result<Vec<u8>, IfoError>)
    requires
        first <= 0x1100_0000_0000,
    ensures
        match r {
            Ok(entries) => gather::gather(count as nat, bytes_from(data@, first as int)) == Ok::<
                Seq<u8>,
                IfoError,
            >(entries@) && entries@.len() == count,
            Err(x) => gather::gather(count as nat, bytes_from(data@, first as int)) == Err::<
                Seq<u8>,
                IfoError,
            >(x),
        },
{
    let mut entries: Vec<u8> = Vec::new();
    let ghost reader = bytes_from(data@, first as int);
    let mut p: u64 = 0;
    while p < count as u64
        invariant
            p <= count,
            first <= 0x1100_0000_0000,
            reader == bytes_from(data@, first as int),
            entries@.len() == p,
            gather::gather(p as nat, reader) == Ok::<Seq<u8>, IfoError>(entries@),
        decreases count - p,
    {
        match rd_u8(data, first + p) {
            Ok(v) => entries.push(v),
            Err(x) => {
                proof {
                    gather::lemma_gather_fails((p + 1) as nat, count as nat, reader);
                }
                return Err(x);
            },
        }
        p = p + 1;
    }
    Ok(entries)
}

fn parse_cells(data: &[u8], first: u64, count: u8) -> (r: Result<Vec<CellPlayback>, IfoError>)
    requires
        first <= 0x1100_0000_0000,
    ensures
        match r {
            Ok(cells) => gather::gather(count as nat, cells_from(data@, first as int)) == Ok::<
                Seq<CellPlayback>,
                IfoError,
            >(cells@) && angle1_ticks(cells@) <= u64::MAX,
            Err(x) => gather::gather(count as nat, cells_from(data@, first as int)) == Err::<
                Seq<CellPlayback>,
                IfoError,
            >(x),
        },
{
    let mut cells: Vec<CellPlayback> = Vec::new();
    let ghost reader = cells_from(data@, first as int);
    let mut c: u64 = 0;
    while c < count as u64
        invariant
            c <= count,
            first <= 0x1100_0000_0000,
            reader == cells_from(data@, first as int),
            cells@.len() == c,
            forall|i: int| 0 <= i < cells@.len() ==> (#[trigger] cells@[i]).duration_ticks
                < 0x10_0000_0000,
            gather::gather(c as nat, reader) == Ok::<Seq<CellPlayback>, IfoError>(cells@),
        decreases count - c,
    {
        match parse_cell(data, first + c * 24) {
            Ok(v) => cells.push(v),
            Err(x) => {
                proof {
                    gather::lemma_gather_fails((c + 1) as nat, count as nat, reader);
                }
                return Err(x);
            },
        }
        c = c + 1;
    }
    proof {
        lemma_angle1_ticks_bounded(cells@);
    }
    Ok(cells)
}

fn parse_pgc(data: &[u8], base: u64) -> (r: Result<Pgc, IfoError>)
    requires
        base <= 0x1001_0000_0000,
    ensures
        match r {
            Ok(pgc) => pgc_at(data@, base as int) == Ok::<PgcModel, IfoError>(pgc.deep_view())
                && pgc.deep_view().well_formed(),
            Err(x) => pgc_at(data@, base as int) == Err::<PgcModel, IfoError>(x),
        },
{
    let nr_of_programs: u8 = match rd_u8(data, base + 0x02) {
        Ok(v) => v,
        Err(x) => return Err(x),
    };
    let nr_of_cells: u8 = match rd_u8(data, base + 0x03) {
        Ok(v) => v,
        Err(x) => return Err(x),
    };
    let playback_ticks: u64 = match rd_time(data, base + 0x04, IfoError::TruncatedPgcTime) {
        Ok(v) => v,
        Err(x) => return Err(x),
    };
    let audio_control = match parse_audio_control(data, base + 0x0C) {
        Ok(v) => v,
        Err(x) => return Err(x),
    };
    let subp_control = match parse_subp_control(data, base + 0x1C) {
        Ok(v) => v,
        Err(x) => return Err(x),
    };
    let program_map_off: u64 = match rd_u16(data, base + 0xE6) {
        Ok(v) => v as u64,
        Err(x) => return Err(x),
    };
    let cell_playback_off: u64 = match rd_u16(data, base + 0xE8) {
        Ok(v) => v as u64,
        Err(x) => return Err(x),
    };
    let program_entry_cells = match parse_program_map(
        data,
        base + program_map_off,
        nr_of_programs,
    ) {
        Ok(v) => v,
        Err(x) => return Err(x),
    };
    let cells = match parse_cells(data, base + cell_playback_off, nr_of_cells) {
        Ok(v) => v,
        Err(x) => return Err(x),
    };
    Ok(Pgc { playback_ticks, audio_control, subp_control, program_entry_cells, cells })
}

fn parse_pgc_table(data: &[u8]) -> (r: Result<Vec<Pgc>, IfoError>)
    ensures
        match r {
            Ok(pgcs) => pgc_section(data@) == Ok::<Seq<PgcModel>, IfoError>(pgcs.deep_view())
                && forall|k: int|
                0 <= k < pgcs@.len() ==> (#[trigger] pgcs@[k]).deep_view().well_formed(),
            Err(x) => pgc_section(data@) == Err::<Seq<PgcModel>, IfoError>(x),
        },
{
    let base: u64 = match rd_u32(data, 0xCC) {
        Ok(sector) => sector as u64 * SECTOR as u64,
        Err(x) => return Err(x),
    };
    let count: u64 = match rd_u16(data, base) {
        Ok(v) => v as u64,
        Err(x) => return Err(x),
    };
    let mut pgcs: Vec<Pgc> = Vec::new();
    let mut i: u64 = 0;
    let ghost reader = pgc_entries_at(data@, base as int);
    assert(pgcs.deep_view() == Seq::<PgcModel>::empty());
    while i < count
        invariant
            i <= count <= 0xFFFF,
            base <= 0x1000_0000_0000,
            reader == pgc_entries_at(data@, base as int),
            forall|k: int|
                0 <= k < pgcs@.len() ==> (#[trigger] pgcs@[k]).deep_view().well_formed(),
            pgc_section(data@) == gather::gather(count as nat, reader),
            gather::gather(i as nat, reader) == Ok::<Seq<PgcModel>, IfoError>(pgcs.deep_view()),
        decreases count - i,
    {
        let off: u64 = match rd_u32(data, base + 8 + i * 8 + 4) {
            Ok(v) => v as u64,
            Err(x) => {
                proof {
                    gather::lemma_gather_fails((i + 1) as nat, count as nat, reader);
                }
                return Err(x);
            },
        };
        match parse_pgc(data, base + off) {
            Ok(pgc) => {
                let ghost before = pgcs.deep_view();
                let ghost model = pgc.deep_view();
                pgcs.push(pgc);
                assert(pgcs.deep_view() == before.push(model));
            },
            Err(x) => {
                proof {
                    gather::lemma_gather_fails((i + 1) as nat, count as nat, reader);
                }
                return Err(x);
            },
        }
        i = i + 1;
    }
    Ok(pgcs)
}

/// What a VTS_nn_0.IFO says, or why it cannot be used: the first section that
/// fails decides, in the order video, audio, subpictures, chapters, PGCs.
pub open spec fn vts_of(data: Seq<u8>) -> Result<VtsModel, IfoError> {
    if !starts_with(data, vts_magic()) {
        Err(IfoError::NotVts)
    } else {
        match (
            byte_at(data, 0x200),
            audio_section(data),
            subp_section(data),
            ptt_section(data),
            pgc_section(data),
        ) {
            (Err(x), _, _, _, _) => Err(x),
            (_, Err(x), _, _, _) => Err(x),
            (_, _, Err(x), _, _) => Err(x),
            (_, _, _, Err(x), _) => Err(x),
            (_, _, _, _, Err(x)) => Err(x),
            (Ok(video), Ok(audio_attrs), Ok(subp_attrs), Ok(title_ptts), Ok(pgcs)) => Ok(
                VtsModel {
                    widescreen: (video / 4) % 4 == 3,
                    audio_attrs,
                    subp_attrs,
                    title_ptts,
                    pgcs,
                },
            ),
        }
    }
}

/// Parse VTS_nn_0.IFO: VTSI_MAT stream attributes, the PTT (chapter) search
/// table and the title PGCs.
pub fn parse_vts(data: &[u8]) -> (r: Result<VtsInfo, IfoError>)
    ensures
        match r {
            Ok(vts) => vts_of(data@) == Ok::<VtsModel, IfoError>(vts.deep_view())
                && vts.well_formed(),
            Err(x) => vts_of(data@) == Err::<VtsModel, IfoError>(x),
        },
{
    let magic: [u8; 12] = [0x44, 0x56, 0x44, 0x56, 0x49, 0x44, 0x45, 0x4F, 0x2D, 0x56, 0x54, 0x53];
    assert(magic@ == vts_magic());
    if !has_magic(data, &magic) {
        return Err(IfoError::NotVts);
    }
    let video_attr0: u8 = match rd_u8(data, 0x200) {
        Ok(v) => v,
        Err(x) => return Err(x),
    };
    let widescreen = (video_attr0 / 4) % 4 == 3;
    let audio_attrs = match parse_audio_attrs(data) {
        Ok(v) => v,
        Err(x) => return Err(x),
    };
    let subp_attrs = match parse_subp_attrs(data) {
        Ok(v) => v,
        Err(x) => return Err(x),
    };
    let title_ptts = match parse_ptt_table(data) {
        Ok(v) => v,
        Err(x) => return Err(x),
    };
    let pgcs = match parse_pgc_table(data) {
        Ok(v) => v,
        Err(x) => return Err(x),
    };
    Ok(VtsInfo { widescreen, audio_attrs, subp_attrs, title_ptts, pgcs })
}

impl VtsInfo {
    /// The tables have no more attributes than a PGC has control words, and
    /// every PGC is well-formed.
    pub open spec fn well_formed(&self) -> bool {
        &&& self.audio_attrs@.len() <= 8
        &&& self.subp_attrs@.len() <= 32
        &&& forall|k: int|
            0 <= k < self.pgcs@.len() ==> (#[trigger] self.pgcs@[k]).deep_view().well_formed()
    }
}

// ---------------------------------------------------------------------------
// Languages
// ---------------------------------------------------------------------------

/// The ISO 639-2 code (T-form) of an ISO 639-1 code; `und` for one that is
/// not known. The withdrawn codes for Hebrew and Indonesian count too.
pub open spec fn language_of(code: Seq<char>) -> Seq<char> {
    if code == "en"@ {
        "eng"@
    } else if code == "de"@ {
        "deu"@
    } else if code == "fr"@ {
        "fra"@
    } else if code == "es"@ {
        "spa"@
    } else if code == "it"@ {
        "ita"@
    } else if code == "pt"@ {
        "por"@
    } else if code == "ru"@ {
        "rus"@
    } else if code == "ja"@ {
        "jpn"@
    } else if code == "ko"@ {
        "kor"@
    } else if code == "zh"@ {
        "zho"@
    } else if code == "ar"@ {
        "ara"@
    } else if code == "hi"@ {
        "hin"@
    } else if code == "nl"@ {
        "nld"@
    } else if code == "pl"@ {
        "pol"@
    } else if code == "sv"@ {
        "swe"@
    } else if code == "no"@ {
        "nor"@
    } else if code == "da"@ {
        "dan"@
    } else if code == "fi"@ {
        "fin"@
    } else if code == "cs"@ {
        "ces"@
    } else if code == "hu"@ {
        "hun"@
    } else if code == "tr"@ {
        "tur"@
    } else if code == "th"@ {
        "tha"@
    } else if code == "vi"@ {
        "vie"@
    } else if code == "ro"@ {
        "ron"@
    } else if code == "el"@ {
        "ell"@
    } else if code == "he"@ {
        "heb"@
    } else if code == "iw"@ {
        "heb"@
    } else if code == "ca"@ {
        "cat"@
    } else if code == "bg"@ {
        "bul"@
    } else if code == "hr"@ {
        "hrv"@
    } else if code == "sk"@ {
        "slk"@
    } else if code == "sl"@ {
        "slv"@
    } else if code == "sr"@ {
        "srp"@
    } else if code == "uk"@ {
        "ukr"@
    } else if code == "id"@ {
        "ind"@
    } else if code == "in"@ {
        "ind"@
    } else if code == "ms"@ {
        "msa"@
    } else {
        "und"@
    }
}

/// Convert an ISO 639-1 code (as stored on DVDs) to the ISO 639-2 code in its
/// T-form.
pub fn iso639_1_to_2(code: &str) -> (r: String)
    ensures
        r@ == language_of(code@),
{
    if text::same_text(code, "en") {
        "eng".to_owned()
    } else if text::same_text(code, "de") {
        "deu".to_owned()
    } else if text::same_text(code, "fr") {
        "fra".to_owned()
    } else if text::same_text(code, "es") {
        "spa".to_owned()
    } else if text::same_text(code, "it") {
        "ita".to_owned()
    } else if text::same_text(code, "pt") {
        "por".to_owned()
    } else if text::same_text(code, "ru") {
        "rus".to_owned()
    } else if text::same_text(code, "ja") {
        "jpn".to_owned()
    } else if text::same_text(code, "ko") {
        "kor".to_owned()
    } else if text::same_text(code, "zh") {
        "zho".to_owned()
    } else if text::same_text(code, "ar") {
        "ara".to_owned()
    } else if text::same_text(code, "hi") {
        "hin".to_owned()
    } else if text::same_text(code, "nl") {
        "nld".to_owned()
    } else if text::same_text(code, "pl") {
        "pol".to_owned()
    } else if text::same_text(code, "sv") {
        "swe".to_owned()
    } else if text::same_text(code, "no") {
        "nor".to_owned()
    } else if text::same_text(code, "da") {
        "dan".to_owned()
    } else if text::same_text(code, "fi") {
        "fin".to_owned()
    } else if text::same_text(code, "cs") {
        "ces".to_owned()
    } else if text::same_text(code, "hu") {
        "hun".to_owned()
    } else if text::same_text(code, "tr") {
        "tur".to_owned()
    } else if text::same_text(code, "th") {
        "tha".to_owned()
    } else if text::same_text(code, "vi") {
        "vie".to_owned()
    } else if text::same_text(code, "ro") {
        "ron".to_owned()
    } else if text::same_text(code, "el") {
        "ell".to_owned()
    } else if text::same_text(code, "he") {
        "heb".to_owned()
    } else if text::same_text(code, "iw") {
        "heb".to_owned()
    } else if text::same_text(code, "ca") {
        "cat".to_owned()
    } else if text::same_text(code, "bg") {
        "bul".to_owned()
    } else if text::same_text(code, "hr") {
        "hrv".to_owned()
    } else if text::same_text(code, "sk") {
        "slk".to_owned()
    } else if text::same_text(code, "sl") {
        "slv".to_owned()
    } else if text::same_text(code, "sr") {
        "srp".to_owned()
    } else if text::same_text(code, "uk") {
        "ukr".to_owned()
    } else if text::same_text(code, "id") {
        "ind".to_owned()
    } else if text::same_text(code, "in") {
        "ind".to_owned()
    } else if text::same_text(code, "ms") {
        "msa".to_owned()
    } else {
        "und".to_owned()
    }
}

/// Every code that comes out has three letters.
pub proof fn language_codes_have_three_letters(code: Seq<char>)
    ensures
        language_of(code).len() == 3,
{
    reveal_strlit("ara");
    reveal_strlit("bul");
    reveal_strlit("cat");
    reveal_strlit("ces");
    reveal_strlit("dan");
    reveal_strlit("deu");
    reveal_strlit("ell");
    reveal_strlit("eng");
    reveal_strlit("fin");
    reveal_strlit("fra");
    reveal_strlit("heb");
    reveal_strlit("hin");
    reveal_strlit("hrv");
    reveal_strlit("hun");
    reveal_strlit("ind");
    reveal_strlit("ita");
    reveal_strlit("jpn");
    reveal_strlit("kor");
    reveal_strlit("msa");
    reveal_strlit("nld");
    reveal_strlit("nor");
    reveal_strlit("pol");
    reveal_strlit("por");
    reveal_strlit("ron");
    reveal_strlit("rus");
    reveal_strlit("slk");
    reveal_strlit("slv");
    reveal_strlit("spa");
    reveal_strlit("srp");
    reveal_strlit("swe");
    reveal_strlit("tha");
    reveal_strlit("tur");
    reveal_strlit("ukr");
    reveal_strlit("und");
    reveal_strlit("vie");
    reveal_strlit("zho");
}

/// The titles of a VIDEO_TS.IFO are numbered from 1 in table order.
pub proof fn vmg_titles_are_numbered_from_one(data: Seq<u8>, i: int)
    requires
        vmg_of(data) is Ok,
        0 <= i < vmg_of(data)->Ok_0.len(),
    ensures
        vmg_of(data)->Ok_0[i].title_nr == i + 1,
{
    let table = u32_at(data, 0xC4)->Ok_0 * 2048;
    let count = u16_at(data, table)->Ok_0;
    gather::lemma_gather_succeeds(count as nat, vmg_titles(data, table));
    assert(vmg_titles(data, table)(i) == vmg_title_at(data, table, i));
}

/// A VTS file never yields more stream attributes than a PGC has control
/// words for.
pub proof fn vts_attributes_have_control_words(data: Seq<u8>)
    requires
        vts_of(data) is Ok,
    ensures
        vts_of(data)->Ok_0.audio_attrs.len() <= 8,
        vts_of(data)->Ok_0.subp_attrs.len() <= 32,
{
    let audio = u16_at(data, 0x202)->Ok_0;
    let subp = u16_at(data, 0x254)->Ok_0;
    gather::lemma_gather_succeeds(at_most(audio, 8), audio_attrs_at(data));
    gather::lemma_gather_succeeds(at_most(subp, 32), subp_attrs_at(data));
}

/// The languages that are known by a code of two letters, each with its code of
/// three; any other code stands for an undetermined language.
pub proof fn known_languages(code: Seq<char>)
    ensures
        language_of("en"@) == "eng"@,
        language_of("de"@) == "deu"@,
        language_of("fr"@) == "fra"@,
        language_of("es"@) == "spa"@,
        language_of("it"@) == "ita"@,
        language_of("pt"@) == "por"@,
        language_of("ru"@) == "rus"@,
        language_of("ja"@) == "jpn"@,
        language_of("ko"@) == "kor"@,
        language_of("zh"@) == "zho"@,
        language_of("ar"@) == "ara"@,
        language_of("hi"@) == "hin"@,
        language_of("nl"@) == "nld"@,
        language_of("pl"@) == "pol"@,
        language_of("sv"@) == "swe"@,
        language_of("no"@) == "nor"@,
        language_of("da"@) == "dan"@,
        language_of("fi"@) == "fin"@,
        language_of("cs"@) == "ces"@,
        language_of("hu"@) == "hun"@,
        language_of("tr"@) == "tur"@,
        language_of("th"@) == "tha"@,
        language_of("vi"@) == "vie"@,
        language_of("ro"@) == "ron"@,
        language_of("el"@) == "ell"@,
        language_of("he"@) == "heb"@,
        language_of("iw"@) == "heb"@,
        language_of("ca"@) == "cat"@,
        language_of("bg"@) == "bul"@,
        language_of("hr"@) == "hrv"@,
        language_of("sk"@) == "slk"@,
        language_of("sl"@) == "slv"@,
        language_of("sr"@) == "srp"@,
        language_of("uk"@) == "ukr"@,
        language_of("id"@) == "ind"@,
        language_of("in"@) == "ind"@,
        language_of("ms"@) == "msa"@,
        language_of(code) != "und"@ ==> code == "en"@ || code == "de"@ || code == "fr"@ || code == "es"@ || code == "it"@ || code == "pt"@ || code == "ru"@ || code == "ja"@ || code == "ko"@ || code == "zh"@ || code == "ar"@ || code == "hi"@ || code == "nl"@ || code == "pl"@ || code == "sv"@ || code == "no"@ || code == "da"@ || code == "fi"@ || code == "cs"@ || code == "hu"@ || code == "tr"@ || code == "th"@ || code == "vi"@ || code == "ro"@ || code == "el"@ || code == "he"@ || code == "iw"@ || code == "ca"@ || code == "bg"@ || code == "hr"@ || code == "sk"@ || code == "sl"@ || code == "sr"@ || code == "uk"@ || code == "id"@ || code == "in"@ || code == "ms"@,
{
    reveal_strlit("en");
    assert("en"@[0] == 'e' && "en"@[1] == 'n');
    reveal_strlit("de");
    assert("de"@[0] == 'd' && "de"@[1] == 'e');
    reveal_strlit("fr");
    assert("fr"@[0] == 'f' && "fr"@[1] == 'r');
    reveal_strlit("es");
    assert("es"@[0] == 'e' && "es"@[1] == 's');
    reveal_strlit("it");
    assert("it"@[0] == 'i' && "it"@[1] == 't');
    reveal_strlit("pt");
    assert("pt"@[0] == 'p' && "pt"@[1] == 't');
    reveal_strlit("ru");
    assert("ru"@[0] == 'r' && "ru"@[1] == 'u');
    reveal_strlit("ja");
    assert("ja"@[0] == 'j' && "ja"@[1] == 'a');
    reveal_strlit("ko");
    assert("ko"@[0] == 'k' && "ko"@[1] == 'o');
    reveal_strlit("zh");
    assert("zh"@[0] == 'z' && "zh"@[1] == 'h');
    reveal_strlit("ar");
    assert("ar"@[0] == 'a' && "ar"@[1] == 'r');
    reveal_strlit("hi");
    assert("hi"@[0] == 'h' && "hi"@[1] == 'i');
    reveal_strlit("nl");
    assert("nl"@[0] == 'n' && "nl"@[1] == 'l');
    reveal_strlit("pl");
    assert("pl"@[0] == 'p' && "pl"@[1] == 'l');
    reveal_strlit("sv");
    assert("sv"@[0] == 's' && "sv"@[1] == 'v');
    reveal_strlit("no");
    assert("no"@[0] == 'n' && "no"@[1] == 'o');
    reveal_strlit("da");
    assert("da"@[0] == 'd' && "da"@[1] == 'a');
    reveal_strlit("fi");
    assert("fi"@[0] == 'f' && "fi"@[1] == 'i');
    reveal_strlit("cs");
    assert("cs"@[0] == 'c' && "cs"@[1] == 's');
    reveal_strlit("hu");
    assert("hu"@[0] == 'h' && "hu"@[1] == 'u');
    reveal_strlit("tr");
    assert("tr"@[0] == 't' && "tr"@[1] == 'r');
    reveal_strlit("th");
    assert("th"@[0] == 't' && "th"@[1] == 'h');
    reveal_strlit("vi");
    assert("vi"@[0] == 'v' && "vi"@[1] == 'i');
    reveal_strlit("ro");
    assert("ro"@[0] == 'r' && "ro"@[1] == 'o');
    reveal_strlit("el");
    assert("el"@[0] == 'e' && "el"@[1] == 'l');
    reveal_strlit("he");
    assert("he"@[0] == 'h' && "he"@[1] == 'e');
    reveal_strlit("iw");
    assert("iw"@[0] == 'i' && "iw"@[1] == 'w');
    reveal_strlit("ca");
    assert("ca"@[0] == 'c' && "ca"@[1] == 'a');
    reveal_strlit("bg");
    assert("bg"@[0] == 'b' && "bg"@[1] == 'g');
    reveal_strlit("hr");
    assert("hr"@[0] == 'h' && "hr"@[1] == 'r');
    reveal_strlit("sk");
    assert("sk"@[0] == 's' && "sk"@[1] == 'k');
    reveal_strlit("sl");
    assert("sl"@[0] == 's' && "sl"@[1] == 'l');
    reveal_strlit("sr");
    assert("sr"@[0] == 's' && "sr"@[1] == 'r');
    reveal_strlit("uk");
    assert("uk"@[0] == 'u' && "uk"@[1] == 'k');
    reveal_strlit("id");
    assert("id"@[0] == 'i' && "id"@[1] == 'd');
    reveal_strlit("in");
    assert("in"@[0] == 'i' && "in"@[1] == 'n');
    reveal_strlit("ms");
    assert("ms"@[0] == 'm' && "ms"@[1] == 's');
}

} // verus!
