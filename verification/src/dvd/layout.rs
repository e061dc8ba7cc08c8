//! What the tables of a DVD say, byte by byte.
use vstd::prelude::*;

use super::ifo;
use super::ifo::AudioCoding;
use crate::gather;

verus! {

/// The number that some bytes write, the most significant first.
pub open spec fn number(bytes: Seq<u8>) -> nat
    decreases bytes.len(),
{
    if bytes.len() == 0 {
        0
    } else {
        number(bytes.drop_last()) * 256 + bytes.last() as nat
    }
}

/// The `n` bytes from `off` on as a number.
pub open spec fn field(data: Seq<u8>, off: int, n: int) -> nat {
    number(data.subrange(off, off + n))
}

proof fn lemma_number2(data: Seq<u8>, off: int)
    requires
        0 <= off,
        off + 2 <= data.len(),
    ensures
        field(data, off, 2) == data[off] * 256 + data[off + 1],
        ifo::u16_at(data, off) == Ok::<u16, ifo::IfoError>(field(data, off, 2) as u16),
        field(data, off, 2) < 0x1_0000,
{
    let s = data.subrange(off, off + 2);
    reveal_with_fuel(number, 3);
    assert(s.drop_last().len() == 1);
    assert(s.drop_last().drop_last().len() == 0);
}

proof fn lemma_number4(data: Seq<u8>, off: int)
    requires
        0 <= off,
        off + 4 <= data.len(),
    ensures
        ifo::u32_at(data, off) == Ok::<u32, ifo::IfoError>(field(data, off, 4) as u32),
        field(data, off, 4) < 0x1_0000_0000,
{
    let s = data.subrange(off, off + 4);
    reveal_with_fuel(number, 5);
    let a = s.drop_last();
    let b = a.drop_last();
    let c = b.drop_last();
    assert(c.drop_last().len() == 0);
    assert(number(c) == data[off]);
    assert(number(b) == data[off] * 256 + data[off + 1]);
    assert(number(a) == (data[off] * 256 + data[off + 1]) * 256 + data[off + 2]);
}

// --- times ---

/// A number below a hundred as two binary-coded decimal digits.
pub open spec fn coded(n: int) -> u8 {
    ((n / 10) * 16 + n % 10) as u8
}

/// The time of `h` hours, `m` minutes, `s` seconds and `f` frames lasts as long as
/// these do: an hour 60 minutes, a minute 60 seconds, a second 90 000 ticks, and
/// 25 frames make a second (PAL), or 30 000 of them 1001 seconds (NTSC).
pub proof fn times_last_as_long_as_their_parts(h: int, m: int, s: int, f: int)
    requires
        0 <= h < 100,
        0 <= m < 100,
        0 <= s < 100,
        0 <= f < 40,
    ensures
        ifo::dvd_time_ticks(coded(h), coded(m), coded(s), (0x40 + coded(f)) as u8) * 25 == (((h * 60
            + m) * 60 + s) * 25 + f) * 90_000,
        ifo::dvd_time_ticks(coded(h), coded(m), coded(s), (0xC0 + coded(f)) as u8) * 30_000 == (((h
            * 60 + m) * 60 + s) * 30_000 + f * 1001) * 90_000,
{
    assert(coded(h) / 16 == h / 10 && coded(h) % 16 == h % 10);
    assert(coded(m) / 16 == m / 10 && coded(m) % 16 == m % 10);
    assert(coded(s) / 16 == s / 10 && coded(s) % 16 == s % 10);
    assert(coded(f) / 16 == f / 10 && coded(f) % 16 == f % 10);
    assert(coded(f) < 64);
    let p = (0x40 + coded(f)) as u8;
    let q = (0xC0 + coded(f)) as u8;
    assert(p % 64 == coded(f) && p / 64 == 1);
    assert(q % 64 == coded(f) && q / 64 == 3);
    assert(ifo::bcd_value(coded(h)) == h);
    assert(ifo::bcd_value(coded(m)) == m);
    assert(ifo::bcd_value(coded(s)) == s);
    assert(ifo::bcd_value(coded(f)) == f);
}

proof fn lemma_time_fits(a: u8, b: u8, c: u8, d: u8)
    ensures
        ifo::dvd_time_ticks(a, b, c, d) < 0x10_0000_0000,
{
    let f = ifo::bcd_value(d % 64);
    let k = ifo::frame_ticks(d / 64);
    assert(f * k <= 165 * 3600) by (nonlinear_arith)
        requires
            f <= 165,
            k <= 3600,
    ;
}

// --- VIDEO_TS.IFO ---

/// Every title of the table comes out with what its twelve-byte entry says: the
/// table stands at the sector in bytes 0xC4 to 0xC7, its first two bytes count the
/// entries, and these start at its byte 8.
pub proof fn vmg_titles_say_what_their_entries_say(data: Seq<u8>, i: int)
    requires
        ifo::vmg_of(data) is Ok,
        0 <= i < ifo::vmg_of(data)->Ok_0.len(),
    ensures
        ({
            let titles = ifo::vmg_of(data)->Ok_0;
            let table = field(data, 0xC4, 4) * 2048;
            let e = table + 8 + 12 * i;
            &&& titles.len() == field(data, table as int, 2)
            &&& e + 8 <= data.len()
            &&& titles[i].title_nr == i + 1
            &&& titles[i].nr_of_angles == data[e + 1]
            &&& titles[i].nr_of_ptts == field(data, e + 2, 2)
            &&& titles[i].title_set_nr == data[e + 6]
            &&& titles[i].vts_ttn == data[e + 7]
        }),
{
    assert(0xC4 + 4 <= data.len());
    lemma_number4(data, 0xC4);
    let table = (field(data, 0xC4, 4) * 2048) as int;
    assert(ifo::u32_at(data, 0xC4)->Ok_0 * 2048 == table);
    assert(table + 2 <= data.len());
    lemma_number2(data, table);
    let count = field(data, table, 2);
    let f = ifo::vmg_titles(data, table);
    gather::lemma_gather_succeeds(count, f);
    let e = table + 8 + i * 12;
    assert(f(i) == ifo::vmg_title_at(data, table, i));
    assert(e + 4 <= data.len());
    lemma_number2(data, e + 2);
}

/// A table that is there as a whole is read.
pub proof fn whole_vmg_tables_are_read(data: Seq<u8>)
    requires
        data.len() >= 0xC8,
        data.take(12) == file_mark('M', 'G'),
        field(data, 0xC4, 4) * 2048 + 2 <= data.len(),
        field(data, 0xC4, 4) * 2048 + 8 + 12 * field(
            data,
            (field(data, 0xC4, 4) * 2048) as int,
            2,
        ) <= data.len(),
    ensures
        ifo::vmg_of(data) is Ok,
{
    assert(ifo::vmg_magic() =~= data.take(12));
    lemma_number4(data, 0xC4);
    let table = (field(data, 0xC4, 4) * 2048) as int;
    lemma_number2(data, table);
    let count = field(data, table, 2);
    let f = ifo::vmg_titles(data, table);
    assert forall|i: int| 0 <= i < count implies #[trigger] f(i) is Ok by {
        assert(f(i) == ifo::vmg_title_at(data, table, i));
        assert(table + 8 + i * 12 + 12 <= data.len());
    }
    gather::lemma_gather_all(count, f);
}

/// `DVDVIDEO-V` and two more letters.
pub open spec fn file_mark(a: char, b: char) -> Seq<u8> {
    seq![
        'D' as u8,
        'V' as u8,
        'D' as u8,
        'V' as u8,
        'I' as u8,
        'D' as u8,
        'E' as u8,
        'O' as u8,
        '-' as u8,
        'V' as u8,
        a as u8,
        b as u8,
    ]
}

/// Only a file that starts with `DVDVIDEO-VMG` is read as a table of titles.
pub proof fn other_vmg_files_are_refused(data: Seq<u8>)
    requires
        ifo::vmg_of(data) is Ok,
    ensures
        data.len() >= 12,
        data.take(12) == file_mark('M', 'G'),
{
    assert(ifo::vmg_magic() =~= file_mark('M', 'G'));
}

/// Only a file that starts with `DVDVIDEO-VTS` is read as a title set.
pub proof fn other_vts_files_are_refused(data: Seq<u8>)
    requires
        ifo::vts_of(data) is Ok,
    ensures
        data.len() >= 12,
        data.take(12) == file_mark('T', 'S'),
{
    lemma_vts_parts(data);
    lemma_vts_mark();
}

proof fn lemma_vts_mark()
    ensures
        ifo::vts_magic() == file_mark('T', 'S'),
{
    assert(ifo::vts_magic() =~= file_mark('T', 'S'));
}

proof fn lemma_vts_parts(data: Seq<u8>)
    requires
        ifo::vts_of(data) is Ok,
    ensures
        ifo::starts_with(data, ifo::vts_magic()),
        data.len() > 0x200,
        ifo::vts_of(data)->Ok_0.widescreen == ((data[0x200] / 4) % 4 == 3),
        ifo::audio_section(data) == Ok::<Seq<ifo::AudioAttrModel>, ifo::IfoError>(
            ifo::vts_of(data)->Ok_0.audio_attrs,
        ),
        ifo::subp_section(data) == Ok::<Seq<ifo::SubpAttrModel>, ifo::IfoError>(
            ifo::vts_of(data)->Ok_0.subp_attrs,
        ),
        ifo::ptt_section(data) == Ok::<Seq<Seq<(u16, u16)>>, ifo::IfoError>(
            ifo::vts_of(data)->Ok_0.title_ptts,
        ),
        ifo::pgc_section(data) == Ok::<Seq<ifo::PgcModel>, ifo::IfoError>(
            ifo::vts_of(data)->Ok_0.pgcs,
        ),
{
}

// --- VTS_nn_0.IFO: program chains ---

/// Where the table of program chains stands.
pub open spec fn pgc_table(data: Seq<u8>) -> int {
    field(data, 0xCC, 4) as int * 2048
}

/// Where a program chain stands.
pub open spec fn pgc_start(data: Seq<u8>, k: int) -> int {
    pgc_table(data) + field(data, pgc_table(data) + 8 + 8 * k + 4, 4)
}

proof fn lemma_pgc(data: Seq<u8>, k: int)
    requires
        ifo::pgc_section(data) is Ok,
        0 <= k < ifo::pgc_section(data)->Ok_0.len(),
    ensures
        pgc_table(data) + 2 <= data.len(),
        ifo::pgc_section(data)->Ok_0.len() == field(data, pgc_table(data), 2),
        ifo::pgc_at(data, pgc_start(data, k)) == Ok::<ifo::PgcModel, ifo::IfoError>(
            ifo::pgc_section(data)->Ok_0[k],
        ),
        pgc_start(data, k) >= 0,
{
    assert(0xCC + 4 <= data.len());
    lemma_number4(data, 0xCC);
    let table = pgc_table(data);
    assert(ifo::u32_at(data, 0xCC)->Ok_0 * 2048 == table);
    assert(table + 2 <= data.len());
    lemma_number2(data, table);
    let count = field(data, table, 2);
    let f = ifo::pgc_entries_at(data, table);
    gather::lemma_gather_succeeds(count, f);
    assert(f(k) == ifo::pgc_entry_at(data, table, k));
    let e = table + 8 + k * 8 + 4;
    assert(e + 4 <= data.len());
    lemma_number4(data, e);
}

/// Every program chain comes out with what its bytes say: bytes 2 and 3 count its
/// programs and cells, bytes 4 to 7 are its playing time, eight audio words of two
/// bytes start at 0x0C, 32 subpicture words of four bytes at 0x1C, and the program
/// map, one byte for each program, starts at the offset in bytes 0xE6 and 0xE7.
pub proof fn pgcs_say_what_their_bytes_say(data: Seq<u8>, k: int, p: int, j: int, n: int)
    requires
        ifo::vts_of(data) is Ok,
        0 <= k < ifo::vts_of(data)->Ok_0.pgcs.len(),
        0 <= p,
        0 <= j < 8,
        0 <= n < 32,
    ensures
        ({
            let pgcs = ifo::vts_of(data)->Ok_0.pgcs;
            let pgc = pgcs[k];
            let base = pgc_start(data, k);
            &&& pgcs.len() == field(data, pgc_table(data), 2)
            &&& base + 0xEA <= data.len()
            &&& pgc.program_entry_cells.len() == data[base + 2]
            &&& pgc.cells.len() == data[base + 3]
            &&& pgc.playback_ticks == ifo::dvd_time_ticks(
                data[base + 4],
                data[base + 5],
                data[base + 6],
                data[base + 7],
            )
            &&& pgc.audio_control.len() == 8
            &&& pgc.audio_control[j] == field(data, base + 0x0C + 2 * j, 2)
            &&& pgc.subp_control.len() == 32
            &&& pgc.subp_control[n] == field(data, base + 0x1C + 4 * n, 4)
            &&& p < pgc.program_entry_cells.len() ==> pgc.program_entry_cells[p] == data[base
                + field(data, base + 0xE6, 2) + p]
        }),
{
    lemma_vts_parts(data);
    lemma_pgc(data, k);
    lemma_pgc_fields(data, pgc_start(data, k), p, j, n);
}

proof fn lemma_pgc_fields(data: Seq<u8>, base: int, p: int, j: int, n: int)
    requires
        base >= 0,
        ifo::pgc_at(data, base) is Ok,
        0 <= p,
        0 <= j < 8,
        0 <= n < 32,
    ensures
        ({
            let pgc = ifo::pgc_at(data, base)->Ok_0;
            &&& base + 0xEA <= data.len()
            &&& pgc.program_entry_cells.len() == data[base + 2]
            &&& pgc.cells.len() == data[base + 3]
            &&& pgc.playback_ticks == ifo::dvd_time_ticks(
                data[base + 4],
                data[base + 5],
                data[base + 6],
                data[base + 7],
            )
            &&& pgc.audio_control.len() == 8
            &&& pgc.audio_control[j] == field(data, base + 0x0C + 2 * j, 2)
            &&& pgc.subp_control.len() == 32
            &&& pgc.subp_control[n] == field(data, base + 0x1C + 4 * n, 4)
            &&& p < pgc.program_entry_cells.len() ==> pgc.program_entry_cells[p] == data[base
                + field(data, base + 0xE6, 2) + p]
        }),
{
    lemma_pgc_head(data, base);
    lemma_time_fits(data[base + 4], data[base + 5], data[base + 6], data[base + 7]);
    let audio = ifo::words16(data, base + 0x0C);
    let subp = ifo::words32(data, base + 0x1C);
    gather::lemma_gather_succeeds(8, audio);
    gather::lemma_gather_succeeds(32, subp);
    assert(audio(j) == ifo::u16_at(data, base + 0x0C + j * 2));
    assert(subp(n) == ifo::u32_at(data, base + 0x1C + n * 4));
    lemma_number2(data, base + 0x0C + j * 2);
    lemma_number4(data, base + 0x1C + n * 4);
    lemma_number2(data, base + 0xE6);
    let map = ifo::bytes_from(data, base + field(data, base + 0xE6, 2));
    gather::lemma_gather_succeeds(data[base + 2] as nat, map);
    assert(map(p) == ifo::byte_at(data, base + field(data, base + 0xE6, 2) + p));
    let cells = ifo::cells_from(data, base + ifo::u16_at(data, base + 0xE8)->Ok_0);
    gather::lemma_gather_succeeds(data[base + 3] as nat, cells);
}

proof fn lemma_pgc_head(data: Seq<u8>, base: int)
    requires
        base >= 0,
        ifo::pgc_at(data, base) is Ok,
    ensures
        base + 0xEA <= data.len(),
{
    assert(ifo::u16_at(data, base + 0xE8) is Ok);
}

/// Every cell comes out with what its 24-byte entry says: the top two bits of byte
/// 0 are its block mode, bytes 4 to 7 its playing time, bytes 8 to 11 its first
/// sector and bytes 20 to 23 its last. The entries start at the offset in bytes
/// 0xE8 and 0xE9 of the program chain.
pub proof fn cells_say_what_their_entries_say(data: Seq<u8>, k: int, c: int)
    requires
        ifo::vts_of(data) is Ok,
        0 <= k < ifo::vts_of(data)->Ok_0.pgcs.len(),
        0 <= c < ifo::vts_of(data)->Ok_0.pgcs[k].cells.len(),
    ensures
        ({
            let cell = ifo::vts_of(data)->Ok_0.pgcs[k].cells[c];
            let base = pgc_start(data, k);
            let e = base + field(data, base + 0xE8, 2) + 24 * c;
            &&& e + 24 <= data.len()
            &&& cell.block_mode * 64 <= data[e] < cell.block_mode * 64 + 64
            &&& cell.duration_ticks == ifo::dvd_time_ticks(
                data[e + 4],
                data[e + 5],
                data[e + 6],
                data[e + 7],
            )
            &&& cell.first_sector == number(
                seq![data[e + 8], data[e + 9], data[e + 10], data[e + 11]],
            )
            &&& cell.last_sector == number(
                seq![data[e + 20], data[e + 21], data[e + 22], data[e + 23]],
            )
        }),
{
    lemma_vts_parts(data);
    lemma_pgc(data, k);
    let base = pgc_start(data, k);
    lemma_pgc_cell(data, base, c);
    let e = base + field(data, base + 0xE8, 2) + c * 24;
    lemma_cell(data, e);
}

proof fn lemma_pgc_cell(data: Seq<u8>, base: int, c: int)
    requires
        base >= 0,
        ifo::pgc_at(data, base) is Ok,
        0 <= c < ifo::pgc_at(data, base)->Ok_0.cells.len(),
    ensures
        ifo::cell_at(data, base + field(data, base + 0xE8, 2) + c * 24) == Ok::<
            ifo::CellPlayback,
            ifo::IfoError,
        >(ifo::pgc_at(data, base)->Ok_0.cells[c]),
{
    lemma_pgc_head(data, base);
    lemma_number2(data, base + 0xE8);
    let first = base + field(data, base + 0xE8, 2);
    let f = ifo::cells_from(data, first);
    gather::lemma_gather_succeeds(data[base + 3] as nat, f);
    assert(f(c) == ifo::cell_at(data, first + c * 24));
}

proof fn lemma_cell(data: Seq<u8>, e: int)
    requires
        e >= 0,
        ifo::cell_at(data, e) is Ok,
    ensures
        ({
            let cell = ifo::cell_at(data, e)->Ok_0;
            &&& e + 24 <= data.len()
            &&& cell.block_mode * 64 <= data[e] < cell.block_mode * 64 + 64
            &&& cell.duration_ticks == ifo::dvd_time_ticks(
                data[e + 4],
                data[e + 5],
                data[e + 6],
                data[e + 7],
            )
            &&& cell.first_sector == number(
                seq![data[e + 8], data[e + 9], data[e + 10], data[e + 11]],
            )
            &&& cell.last_sector == number(
                seq![data[e + 20], data[e + 21], data[e + 22], data[e + 23]],
            )
        }),
{
    lemma_number4(data, e + 8);
    lemma_number4(data, e + 20);
    lemma_time_fits(data[e + 4], data[e + 5], data[e + 6], data[e + 7]);
    assert(data.subrange(e + 8, e + 12) =~= seq![
        data[e + 8],
        data[e + 9],
        data[e + 10],
        data[e + 11],
    ]);
    assert(data.subrange(e + 20, e + 24) =~= seq![
        data[e + 20],
        data[e + 21],
        data[e + 22],
        data[e + 23],
    ]);
}

// --- VTS_nn_0.IFO: chapters ---

/// Where the table of chapters stands.
pub open spec fn ptt_table(data: Seq<u8>) -> int {
    field(data, 0xC8, 4) as int * 2048
}

/// Every chapter of a title comes out as the two numbers of its four-byte entry,
/// and a title has as many chapters as whole entries lie between the start of its
/// list and that of the next title's, or the last byte of the table.
pub proof fn chapters_say_what_their_entries_say(data: Seq<u8>, t: int, c: int)
    requires
        ifo::vts_of(data) is Ok,
        0 <= t < ifo::vts_of(data)->Ok_0.title_ptts.len(),
        0 <= c < ifo::vts_of(data)->Ok_0.title_ptts[t].len(),
    ensures
        ({
            let rows = ifo::vts_of(data)->Ok_0.title_ptts;
            let table = ptt_table(data);
            let start = field(data, table + 8 + 4 * t, 4);
            let end = if t + 1 < rows.len() {
                field(data, table + 8 + 4 * (t + 1), 4) as int
            } else {
                field(data, table + 4, 4) as int + 1
            };
            let e = table + start + 4 * c;
            &&& rows.len() == field(data, table, 2)
            &&& start + 4 * rows[t].len() <= end < start + 4 * (rows[t].len() + 1)
            &&& e + 4 <= data.len()
            &&& rows[t][c].0 == field(data, e, 2)
            &&& rows[t][c].1 == field(data, e + 2, 2)
        }),
{
    lemma_vts_parts(data);
    lemma_chapters(data, t, c);
}

proof fn lemma_chapters(data: Seq<u8>, t: int, c: int)
    requires
        ifo::ptt_section(data) is Ok,
        0 <= t < ifo::ptt_section(data)->Ok_0.len(),
        0 <= c < ifo::ptt_section(data)->Ok_0[t].len(),
    ensures
        ({
            let rows = ifo::ptt_section(data)->Ok_0;
            let table = ptt_table(data);
            let start = field(data, table + 8 + 4 * t, 4);
            let end = if t + 1 < rows.len() {
                field(data, table + 8 + 4 * (t + 1), 4) as int
            } else {
                field(data, table + 4, 4) as int + 1
            };
            let e = table + start + 4 * c;
            &&& rows.len() == field(data, table, 2)
            &&& start + 4 * rows[t].len() <= end < start + 4 * (rows[t].len() + 1)
            &&& e + 4 <= data.len()
            &&& rows[t][c].0 == field(data, e, 2)
            &&& rows[t][c].1 == field(data, e + 2, 2)
        }),
{
    assert(0xC8 + 4 <= data.len());
    lemma_number4(data, 0xC8);
    let table = ptt_table(data);
    assert(ifo::u32_at(data, 0xC8)->Ok_0 * 2048 == table);
    assert(table + 8 <= data.len());
    lemma_number2(data, table);
    lemma_number4(data, table + 4);
    let count = field(data, table, 2);
    let last = field(data, table + 4, 4) as int;
    let f = ifo::all_title_ptts(data, table, count as int, last);
    gather::lemma_gather_succeeds(count, f);
    assert(f(t) == ifo::title_ptts_at(data, table, count as int, last, t));
    let a = table + 8 + t * 4;
    assert(a + 4 <= data.len());
    lemma_number4(data, a);
    let start = field(data, a, 4) as int;
    let end: int;
    if t + 1 < count {
        let b = table + 8 + (t + 1) * 4;
        assert(b + 4 <= data.len());
        lemma_number4(data, b);
        end = field(data, b, 4) as int;
    } else {
        end = last + 1;
    }
    let n = ifo::pair_count(start, end);
    let g = ifo::ptts_at(data, table + start);
    gather::lemma_gather_succeeds(n, g);
    let e = table + start + c * 4;
    assert(g(c) == ifo::ptt_at(data, e));
    assert(e + 4 <= data.len());
    lemma_number2(data, e);
    lemma_number2(data, e + 2);
}

// --- VTS_nn_0.IFO: stream attributes ---

/// The three top bits of a byte.
pub open spec fn top_bits(b: u8) -> int {
    b as int / 32
}

/// Every audio attribute comes out with what its eight bytes from 0x204 on say, and
/// there are as many as the two bytes at 0x202 count, but eight at most. The top
/// three bits of byte 0 are the coding, the low three bits of byte 1 one less than
/// the channels, and bytes 2 and 3 the language, where bits 3 and 2 of byte 0 say
/// so and they are small letters.
pub proof fn audio_attributes_say_what_their_bytes_say(data: Seq<u8>, i: int)
    requires
        ifo::vts_of(data) is Ok,
        0 <= i < ifo::vts_of(data)->Ok_0.audio_attrs.len(),
    ensures
        ({
            let attrs = ifo::vts_of(data)->Ok_0.audio_attrs;
            let attr = attrs[i];
            let a = 0x204 + 8 * i;
            let named = (data[a] as int / 4) % 4 == 1 && a + 4 <= data.len() && 'a' as u8 <= data[a
                + 2] <= 'z' as u8 && 'a' as u8 <= data[a + 3] <= 'z' as u8;
            &&& field(data, 0x202, 2) <= 8 ==> attrs.len() == field(data, 0x202, 2)
            &&& field(data, 0x202, 2) > 8 ==> attrs.len() == 8
            &&& a + 2 <= data.len()
            &&& attr.coding is Ac3 <==> top_bits(data[a]) == 0
            &&& attr.coding is Mpeg1 <==> top_bits(data[a]) == 2
            &&& attr.coding is Mpeg2Ext <==> top_bits(data[a]) == 3
            &&& attr.coding is Lpcm <==> top_bits(data[a]) == 4
            &&& attr.coding is Dts <==> top_bits(data[a]) == 6
            &&& attr.coding matches AudioCoding::Unknown(bits) ==> bits == top_bits(data[a])
            &&& attr.channels == data[a + 1] % 8 + 1
            &&& named ==> attr.lang == Some(seq![data[a + 2] as char, data[a + 3] as char])
            &&& !named ==> attr.lang is None
        }),
{
    lemma_vts_parts(data);
    lemma_audio(data, i);
}

proof fn lemma_audio(data: Seq<u8>, i: int)
    requires
        ifo::audio_section(data) is Ok,
        0 <= i < ifo::audio_section(data)->Ok_0.len(),
    ensures
        ({
            let attrs = ifo::audio_section(data)->Ok_0;
            let attr = attrs[i];
            let a = 0x204 + 8 * i;
            let named = (data[a] as int / 4) % 4 == 1 && a + 4 <= data.len() && 'a' as u8 <= data[a
                + 2] <= 'z' as u8 && 'a' as u8 <= data[a + 3] <= 'z' as u8;
            &&& field(data, 0x202, 2) <= 8 ==> attrs.len() == field(data, 0x202, 2)
            &&& field(data, 0x202, 2) > 8 ==> attrs.len() == 8
            &&& a + 2 <= data.len()
            &&& attr.coding is Ac3 <==> top_bits(data[a]) == 0
            &&& attr.coding is Mpeg1 <==> top_bits(data[a]) == 2
            &&& attr.coding is Mpeg2Ext <==> top_bits(data[a]) == 3
            &&& attr.coding is Lpcm <==> top_bits(data[a]) == 4
            &&& attr.coding is Dts <==> top_bits(data[a]) == 6
            &&& attr.coding matches AudioCoding::Unknown(bits) ==> bits == top_bits(data[a])
            &&& attr.channels == data[a + 1] % 8 + 1
            &&& named ==> attr.lang == Some(seq![data[a + 2] as char, data[a + 3] as char])
            &&& !named ==> attr.lang is None
        }),
{
    assert(0x202 + 2 <= data.len());
    lemma_number2(data, 0x202);
    let n = ifo::at_most(field(data, 0x202, 2) as u16, 8);
    let f = ifo::audio_attrs_at(data);
    gather::lemma_gather_succeeds(n, f);
    assert(f(i) == ifo::audio_attr_at(data, i));
}

/// Every subpicture attribute comes out with what its six bytes from 0x256 on say,
/// and there are as many as the two bytes at 0x254 count, but 32 at most. Bytes 2
/// and 3 are the language, where the low two bits of byte 0 say so and they are
/// small letters.
pub proof fn subpicture_attributes_say_what_their_bytes_say(data: Seq<u8>, i: int)
    requires
        ifo::vts_of(data) is Ok,
        0 <= i < ifo::vts_of(data)->Ok_0.subp_attrs.len(),
    ensures
        ({
            let attrs = ifo::vts_of(data)->Ok_0.subp_attrs;
            let a = 0x256 + 6 * i;
            let named = data[a] as int % 4 == 1 && a + 4 <= data.len() && 'a' as u8 <= data[a + 2]
                <= 'z' as u8 && 'a' as u8 <= data[a + 3] <= 'z' as u8;
            &&& field(data, 0x254, 2) <= 32 ==> attrs.len() == field(data, 0x254, 2)
            &&& field(data, 0x254, 2) > 32 ==> attrs.len() == 32
            &&& a < data.len()
            &&& named ==> attrs[i].lang == Some(seq![data[a + 2] as char, data[a + 3] as char])
            &&& !named ==> attrs[i].lang is None
        }),
{
    lemma_vts_parts(data);
    lemma_subp(data, i);
}

proof fn lemma_subp(data: Seq<u8>, i: int)
    requires
        ifo::subp_section(data) is Ok,
        0 <= i < ifo::subp_section(data)->Ok_0.len(),
    ensures
        ({
            let attrs = ifo::subp_section(data)->Ok_0;
            let a = 0x256 + 6 * i;
            let named = data[a] as int % 4 == 1 && a + 4 <= data.len() && 'a' as u8 <= data[a + 2]
                <= 'z' as u8 && 'a' as u8 <= data[a + 3] <= 'z' as u8;
            &&& field(data, 0x254, 2) <= 32 ==> attrs.len() == field(data, 0x254, 2)
            &&& field(data, 0x254, 2) > 32 ==> attrs.len() == 32
            &&& a < data.len()
            &&& named ==> attrs[i].lang == Some(seq![data[a + 2] as char, data[a + 3] as char])
            &&& !named ==> attrs[i].lang is None
        }),
{
    assert(0x254 + 2 <= data.len());
    lemma_number2(data, 0x254);
    let n = ifo::at_most(field(data, 0x254, 2) as u16, 32);
    let f = ifo::subp_attrs_at(data);
    gather::lemma_gather_succeeds(n, f);
    assert(f(i) == ifo::subp_attr_at(data, i));
}

/// The picture is wide exactly where bits 3 and 2 of byte 0x200 are both set.
pub proof fn wide_pictures_are_marked(data: Seq<u8>)
    requires
        ifo::vts_of(data) is Ok,
    ensures
        ifo::vts_of(data)->Ok_0.widescreen <==> data[0x200] % 16 >= 12,
{
    lemma_vts_parts(data);
    let b = data[0x200];
    assert((b / 4) % 4 == 3 <==> b % 16 >= 12) by (bit_vector);
}

// --- titles and chains ---

/// A title plays the program chain that its first chapter points at; titles,
/// chapters and chains are counted from 1, and what is counted 0 or beyond the end
/// is not there.
pub proof fn titles_play_the_chain_of_their_first_chapter(vts: ifo::VtsModel, title: u8)
    ensures
        match vts.pgcn_for_title(title) {
            Some(pgcn) => 1 <= title <= vts.title_ptts.len() && vts.title_ptts[title - 1].len() > 0
                && pgcn == vts.title_ptts[title - 1][0].0 && 1 <= pgcn <= vts.pgcs.len(),
            None => title == 0 || title > vts.title_ptts.len() || vts.title_ptts[title - 1].len()
                == 0 || vts.title_ptts[title - 1][0].0 == 0 || vts.title_ptts[title - 1][0].0
                > vts.pgcs.len(),
        },
{
}

// --- VTS_nn_0.IFO: whole files ---

/// Where the chapters of a title end, counted from the start of the table: where
/// those of the next title start, or behind the last byte of the table.
pub open spec fn chapters_end(data: Seq<u8>, t: int) -> int {
    let table = ptt_table(data);
    if t + 1 < field(data, table, 2) {
        field(data, table + 8 + 4 * (t + 1), 4) as int
    } else {
        field(data, table + 4, 4) as int + 1
    }
}

/// A title has as many chapters as whole entries of four bytes lie between the start
/// of its chapters and their end, none where they end before they start.
pub proof fn titles_have_a_chapter_for_each_entry(data: Seq<u8>, t: int)
    requires
        ifo::vts_of(data) is Ok,
        0 <= t < ifo::vts_of(data)->Ok_0.title_ptts.len(),
    ensures
        ({
            let rows = ifo::vts_of(data)->Ok_0.title_ptts;
            let start = field(data, ptt_table(data) + 8 + 4 * t, 4);
            let end = chapters_end(data, t);
            &&& rows.len() == field(data, ptt_table(data), 2)
            &&& end > start ==> start + 4 * rows[t].len() <= end < start + 4 * (rows[t].len() + 1)
            &&& end <= start ==> rows[t].len() == 0
        }),
{
    lemma_vts_parts(data);
    lemma_chapter_count(data, t);
}

proof fn lemma_chapter_count(data: Seq<u8>, t: int)
    requires
        ifo::ptt_section(data) is Ok,
        0 <= t < ifo::ptt_section(data)->Ok_0.len(),
    ensures
        ({
            let rows = ifo::ptt_section(data)->Ok_0;
            let start = field(data, ptt_table(data) + 8 + 4 * t, 4);
            let end = chapters_end(data, t);
            &&& rows.len() == field(data, ptt_table(data), 2)
            &&& end > start ==> start + 4 * rows[t].len() <= end < start + 4 * (rows[t].len() + 1)
            &&& end <= start ==> rows[t].len() == 0
        }),
{
    lemma_chapter_row(data, t);
    let table = ptt_table(data);
    lemma_row_length(
        data,
        table,
        field(data, table, 2) as int,
        field(data, table + 4, 4) as int,
        t,
    );
}

proof fn lemma_chapter_row(data: Seq<u8>, t: int)
    requires
        ifo::ptt_section(data) is Ok,
        0 <= t < ifo::ptt_section(data)->Ok_0.len(),
    ensures
        ifo::ptt_section(data)->Ok_0.len() == field(data, ptt_table(data), 2),
        ifo::title_ptts_at(
            data,
            ptt_table(data),
            field(data, ptt_table(data), 2) as int,
            field(data, ptt_table(data) + 4, 4) as int,
            t,
        ) == Ok::<Seq<(u16, u16)>, ifo::IfoError>(ifo::ptt_section(data)->Ok_0[t]),
{
    assert(0xC8 + 4 <= data.len());
    lemma_number4(data, 0xC8);
    let table = ptt_table(data);
    assert(ifo::u32_at(data, 0xC8)->Ok_0 * 2048 == table);
    assert(table + 8 <= data.len());
    lemma_number2(data, table);
    lemma_number4(data, table + 4);
    let count = field(data, table, 2);
    let last = field(data, table + 4, 4) as int;
    let f = ifo::all_title_ptts(data, table, count as int, last);
    gather::lemma_gather_succeeds(count, f);
    assert(f(t) == ifo::title_ptts_at(data, table, count as int, last, t));
}

proof fn lemma_row_length(data: Seq<u8>, table: int, count: int, last: int, t: int)
    requires
        0 <= table,
        0 <= t < count,
        ifo::title_ptts_at(data, table, count, last, t) is Ok,
    ensures
        ({
            let row = ifo::title_ptts_at(data, table, count, last, t)->Ok_0;
            let start = field(data, table + 8 + 4 * t, 4);
            let end = if t + 1 < count {
                field(data, table + 8 + 4 * (t + 1), 4) as int
            } else {
                last + 1
            };
            &&& end > start ==> start + 4 * row.len() <= end < start + 4 * (row.len() + 1)
            &&& end <= start ==> row.len() == 0
        }),
{
    let a = table + 8 + t * 4;
    assert(a + 4 <= data.len());
    lemma_number4(data, a);
    let start = field(data, a, 4) as int;
    let end: int;
    if t + 1 < count {
        let b = table + 8 + (t + 1) * 4;
        assert(b + 4 <= data.len());
        lemma_number4(data, b);
        end = field(data, b, 4) as int;
    } else {
        end = last + 1;
    }
    gather::lemma_gather_succeeds(
        ifo::pair_count(start, end),
        ifo::ptts_at(data, table + start),
    );
}

/// That the table of chapters lies in the data as a whole.
pub open spec fn has_whole_chapters(data: Seq<u8>) -> bool {
    let table = ptt_table(data);
    &&& table + 8 + 4 * field(data, table, 2) <= data.len()
    &&& forall|t: int|
        0 <= t < field(data, table, 2) ==> chapters_end(data, t) <= field(
            data,
            #[trigger] chapter_entry(data, t),
            4,
        ) || table + chapters_end(data, t) <= data.len()
}

/// Where the entry of a title stands in the table of chapters.
pub open spec fn chapter_entry(data: Seq<u8>, t: int) -> int {
    ptt_table(data) + 8 + 4 * t
}

/// That the table of program chains and the chains lie in the data as a whole.
pub open spec fn has_whole_chains(data: Seq<u8>) -> bool {
    let table = pgc_table(data);
    &&& table + 8 + 8 * field(data, table, 2) <= data.len()
    &&& forall|k: int|
        0 <= k < field(data, table, 2) ==> is_whole_chain(data, #[trigger] pgc_start(data, k))
}

/// That a program chain with its map and its cells lies in the data as a whole.
pub open spec fn is_whole_chain(data: Seq<u8>, base: int) -> bool {
    &&& base + 0xEA <= data.len()
    &&& base + field(data, base + 0xE6, 2) + data[base + 2] <= data.len()
    &&& base + field(data, base + 0xE8, 2) + 24 * data[base + 3] <= data.len()
}

/// A title set that is there as a whole is read, whatever its tables say.
pub proof fn whole_title_sets_are_read(data: Seq<u8>)
    requires
        data.len() >= 0x316,
        data.take(12) == file_mark('T', 'S'),
        has_whole_chapters(data),
        has_whole_chains(data),
    ensures
        ifo::vts_of(data) is Ok,
{
    lemma_vts_mark();
    assert(ifo::starts_with(data, ifo::vts_magic()));
    lemma_whole_attributes(data);
    lemma_whole_chapters(data);
    lemma_whole_chains(data);
}

proof fn lemma_whole_attributes(data: Seq<u8>)
    requires
        data.len() >= 0x316,
    ensures
        ifo::audio_section(data) is Ok,
        ifo::subp_section(data) is Ok,
{
    let f = ifo::audio_attrs_at(data);
    assert forall|i: int| 0 <= i < 8 implies #[trigger] f(i) is Ok by {
        assert(f(i) == ifo::audio_attr_at(data, i));
    }
    let g = ifo::subp_attrs_at(data);
    assert forall|i: int| 0 <= i < 32 implies #[trigger] g(i) is Ok by {
        assert(g(i) == ifo::subp_attr_at(data, i));
    }
    let a = ifo::at_most(ifo::u16_at(data, 0x202)->Ok_0, 8);
    gather::lemma_gather_all(a, f);
    let b = ifo::at_most(ifo::u16_at(data, 0x254)->Ok_0, 32);
    gather::lemma_gather_all(b, g);
}

proof fn lemma_whole_chapters(data: Seq<u8>)
    requires
        data.len() >= 0x316,
        has_whole_chapters(data),
    ensures
        ifo::ptt_section(data) is Ok,
{
    lemma_number4(data, 0xC8);
    let table = ptt_table(data);
    assert(ifo::u32_at(data, 0xC8)->Ok_0 * 2048 == table);
    lemma_number2(data, table);
    lemma_number4(data, table + 4);
    let count = field(data, table, 2);
    let last = field(data, table + 4, 4) as int;
    let f = ifo::all_title_ptts(data, table, count as int, last);
    assert forall|t: int| 0 <= t < count implies #[trigger] f(t) is Ok by {
        assert(f(t) == ifo::title_ptts_at(data, table, count as int, last, t));
        let a = chapter_entry(data, t);
        assert(a + 4 <= data.len());
        lemma_number4(data, a);
        let start = field(data, a, 4) as int;
        if t + 1 < count {
            lemma_number4(data, table + 8 + (t + 1) * 4);
        }
        let end = chapters_end(data, t);
        let n = ifo::pair_count(start, end);
        let g = ifo::ptts_at(data, table + start);
        assert forall|c: int| 0 <= c < n implies #[trigger] g(c) is Ok by {
            let e = table + start + c * 4;
            assert(g(c) == ifo::ptt_at(data, e));
            assert(e + 4 <= table + end);
        }
        gather::lemma_gather_all(n, g);
    }
    gather::lemma_gather_all(count, f);
}

proof fn lemma_whole_chains(data: Seq<u8>)
    requires
        data.len() >= 0x316,
        has_whole_chains(data),
    ensures
        ifo::pgc_section(data) is Ok,
{
    lemma_number4(data, 0xCC);
    let table = pgc_table(data);
    assert(ifo::u32_at(data, 0xCC)->Ok_0 * 2048 == table);
    lemma_number2(data, table);
    let count = field(data, table, 2);
    let f = ifo::pgc_entries_at(data, table);
    assert forall|k: int| 0 <= k < count implies #[trigger] f(k) is Ok by {
        assert(f(k) == ifo::pgc_entry_at(data, table, k));
        lemma_number4(data, table + 8 + k * 8 + 4);
        assert(is_whole_chain(data, pgc_start(data, k)));
        lemma_whole_chain(data, pgc_start(data, k));
    }
    gather::lemma_gather_all(count, f);
}

proof fn lemma_whole_chain(data: Seq<u8>, base: int)
    requires
        base >= 0,
        is_whole_chain(data, base),
    ensures
        ifo::pgc_at(data, base) is Ok,
{
    let audio = ifo::words16(data, base + 0x0C);
    assert forall|j: int| 0 <= j < 8 implies #[trigger] audio(j) is Ok by {
        assert(audio(j) == ifo::u16_at(data, base + 0x0C + j * 2));
    }
    gather::lemma_gather_all(8, audio);
    let subp = ifo::words32(data, base + 0x1C);
    assert forall|j: int| 0 <= j < 32 implies #[trigger] subp(j) is Ok by {
        assert(subp(j) == ifo::u32_at(data, base + 0x1C + j * 4));
    }
    gather::lemma_gather_all(32, subp);
    lemma_number2(data, base + 0xE6);
    lemma_number2(data, base + 0xE8);
    let map_start = base + field(data, base + 0xE6, 2);
    let map = ifo::bytes_from(data, map_start);
    assert forall|p: int| 0 <= p < data[base + 2] implies #[trigger] map(p) is Ok by {
        assert(map(p) == ifo::byte_at(data, map_start + p));
    }
    gather::lemma_gather_all(data[base + 2] as nat, map);
    let first = base + field(data, base + 0xE8, 2);
    let cells = ifo::cells_from(data, first);
    assert forall|c: int| 0 <= c < data[base + 3] implies #[trigger] cells(c) is Ok by {
        assert(cells(c) == ifo::cell_at(data, first + c * 24));
        assert(first + c * 24 + 24 <= data.len());
    }
    gather::lemma_gather_all(data[base + 3] as nat, cells);
}

} // verus!
