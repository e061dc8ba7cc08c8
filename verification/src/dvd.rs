//! DVD-Video: the tables on the disc and what is read with them.
use vstd::prelude::*;

use self::ifo::{CellPlayback, Pgc, VmgTitle, VtsInfo};
use crate::{list, text};

pub mod ifo;
pub mod layout;

verus! {

/// Bytes of one block on the disc.
pub const BLOCK_SIZE: u64 = 2048;

/// The most blocks that are read at once: 8 MB.
pub const CHUNK_BLOCKS: u64 = 4096;

// --- streams of a title ---

/// The substream number in a PGC subp_control word for a display mode.
pub open spec fn subp_number(ctrl: u32, widescreen: bool) -> u8 {
    if widescreen {
        ((ctrl >> 16) & 0x1F) as u8
    } else {
        ((ctrl >> 24) & 0x1F) as u8
    }
}

/// Pick the substream number from a PGC subp_control word for the disc's
/// display mode: byte1 = widescreen, byte0 (bits 28-24) = 4:3.
pub fn subp_stream_number(ctrl: u32, widescreen: bool) -> (r: u8)
    ensures
        r == subp_number(ctrl, widescreen),
        r < 32,
{
    assert((ctrl >> 16) & 0x1F < 32) by (bit_vector);
    assert((ctrl >> 24) & 0x1F < 32) by (bit_vector);
    if widescreen {
        ((ctrl >> 16) & 0x1F) as u8
    } else {
        ((ctrl >> 24) & 0x1F) as u8
    }
}

/// Does a PGC audio_control word announce a stream?
pub open spec fn audio_present(ctrl: u16) -> bool {
    ctrl & 0x8000 != 0
}

/// The substream number in a PGC audio_control word.
pub open spec fn audio_number(ctrl: u16) -> u8 {
    ((ctrl >> 8) & 0x07) as u8
}

/// The substream number in a PGC audio_control word, none where it announces no
/// stream.
pub fn audio_stream_number(ctrl: u16) -> (r: Option<u8>)
    ensures
        audio_present(ctrl) ==> r == Some(audio_number(ctrl)),
        !audio_present(ctrl) ==> r is None,
        r matches Some(n) ==> n < 8,
{
    assert((ctrl >> 8) & 0x07 < 8) by (bit_vector);
    if ctrl & 0x8000 == 0 {
        None
    } else {
        Some(((ctrl >> 8) & 0x07) as u8)
    }
}

/// Does a PGC subp_control word announce a stream?
pub open spec fn subp_present(ctrl: u32) -> bool {
    ctrl & 0x8000_0000 != 0
}

/// Does a PGC subp_control word announce a stream?
pub fn has_subpicture(ctrl: u32) -> (r: bool)
    ensures
        r == subp_present(ctrl),
{
    ctrl & 0x8000_0000 != 0
}

// --- finding a title ---

/// The place of a title in the table, by its number.
pub open spec fn title_position(vmg: Seq<VmgTitle>, title: u32) -> int
    decreases vmg.len(),
{
    if vmg.len() == 0 || vmg[0].title_nr == title {
        0
    } else {
        1 + title_position(vmg.skip(1), title)
    }
}

proof fn lemma_title_position(vmg: Seq<VmgTitle>, title: u32, n: int)
    requires
        0 <= n <= vmg.len(),
        forall|i: int| 0 <= i < n ==> (#[trigger] vmg[i]).title_nr != title,
        n < vmg.len() ==> vmg[n].title_nr == title,
    ensures
        title_position(vmg, title) == n,
    decreases vmg.len(),
{
    if n > 0 {
        let rest = vmg.skip(1);
        assert forall|i: int| 0 <= i < n - 1 implies (#[trigger] rest[i]).title_nr != title by {
            assert(rest[i] == vmg[i + 1]);
        }
        lemma_title_position(rest, title, n - 1);
    }
}

/// What is said of a title that the disc does not have.
pub open spec fn no_title_text(title: u32, titles: nat) -> Seq<char> {
    "Title "@ + text::decimal(title as nat) + " not found (disc has "@ + text::decimal(titles)
        + ")"@
}

/// The table entry of a title.
pub fn find_title(vmg: &Vec<VmgTitle>, title: u32) -> (r: Result<VmgTitle, String>)
    ensures
        match r {
            Ok(entry) => title_position(vmg@, title) < vmg.len() && entry == vmg[title_position(
                vmg@,
                title,
            )],
            Err(message) => title_position(vmg@, title) == vmg.len() && message@ == no_title_text(
                title,
                vmg@.len(),
            ),
        },
{
    let mut i: usize = 0;
    while i < vmg.len()
        invariant
            i <= vmg.len(),
            forall|k: int| 0 <= k < i ==> (#[trigger] vmg@[k]).title_nr != title,
        decreases vmg.len() - i,
    {
        if vmg[i].title_nr == title {
            proof {
                lemma_title_position(vmg@, title, i as int);
            }
            return Ok(vmg[i]);
        }
        i = i + 1;
    }
    proof {
        lemma_title_position(vmg@, title, i as int);
    }
    let mut message = "Title ".to_owned();
    text::push_decimal(&mut message, title as u64);
    message.append(" not found (disc has ");
    text::push_decimal(&mut message, vmg.len() as u64);
    message.append(")");
    Err(message)
}

/// What is said of a title without a program chain.
pub open spec fn no_pgc_text(title: u32) -> Seq<char> {
    "No PGC found for title "@ + text::decimal(title as nat)
}

/// The program chain that a title plays.
pub fn title_pgc<'a>(vts: &'a VtsInfo, entry: &VmgTitle) -> (r: Result<&'a Pgc, String>)
    ensures
        match r {
            Ok(pgc) => vts.deep_view().pgcn_for_title(entry.vts_ttn) matches Some(pgcn) && 1
                <= pgcn <= vts.pgcs.len() && *pgc == vts.pgcs[pgcn - 1],
            Err(message) => vts.deep_view().pgcn_for_title(entry.vts_ttn) is None && message@
                == no_pgc_text(entry.title_nr),
        },
{
    match vts.pgc_for_title(entry.vts_ttn) {
        Some((_, pgc)) => Ok(pgc),
        None => {
            let mut message = "No PGC found for title ".to_owned();
            text::push_decimal(&mut message, entry.title_nr as u64);
            Err(message)
        },
    }
}

// --- reading a title ---

/// The blocks from `first` to `last`, both of them read.
pub open spec fn blocks_between(first: int, last: int) -> Seq<int> {
    Seq::new(
        (if first <= last {
            last - first + 1
        } else {
            0
        }) as nat,
        |k: int| first + k,
    )
}

/// The blocks of the angle-1 cells, in playing order.
pub open spec fn title_blocks(cells: Seq<CellPlayback>) -> Seq<int>
    decreases cells.len(),
{
    if cells.len() == 0 {
        Seq::empty()
    } else if cells[0].in_angle1() {
        blocks_between(cells[0].first_sector as int, cells[0].last_sector as int) + title_blocks(
            cells.skip(1),
        )
    } else {
        title_blocks(cells.skip(1))
    }
}

/// A request for some blocks in a row.
#[derive(Debug, Clone, Copy, PartialEq, Eq, Structural)]
pub struct BlockRequest {
    pub sector: u64,
    pub count: u64,
}

/// How far the reading of a title's cells has come.
#[derive(Debug)]
pub struct CellReader {
    pub cells: Vec<CellPlayback>,
    pub index: usize,
    pub sector: u64,
    pub total_bytes: u64,
}

impl CellReader {
    /// The blocks that are still to be read.
    pub open spec fn remaining(self) -> Seq<int> {
        if self.index < self.cells.len() {
            blocks_between(self.sector as int, self.cells[self.index as int].last_sector as int)
                + title_blocks(self.cells@.skip(self.index + 1))
        } else {
            Seq::empty()
        }
    }

    /// The bytes that have been read and those that are still to be read.
    pub open spec fn whole_size(self) -> int {
        self.total_bytes + BLOCK_SIZE * self.remaining().len()
    }

    /// The reader stands on a block that is to be read, or behind the last one.
    pub open spec fn well_formed(self) -> bool {
        &&& self.index <= self.cells.len()
        &&& self.index < self.cells.len() ==> self.cells[self.index as int].in_angle1()
            && self.sector <= self.cells[self.index as int].last_sector
    }

    /// Reading starts with the first block of the first angle-1 cell.
    pub fn new(cells: &Vec<CellPlayback>) -> (r: Self)
        ensures
            r.well_formed(),
            r.remaining() == title_blocks(cells@),
            r.total_bytes == 0,
            r.whole_size() == BLOCK_SIZE * title_blocks(cells@).len(),
    {
        let mut copied: Vec<CellPlayback> = Vec::new();
        let mut i: usize = 0;
        while i < cells.len()
            invariant
                i <= cells.len(),
                copied@ == cells@.take(i as int),
            decreases cells.len() - i,
        {
            copied.push(cells[i]);
            assert(copied@ =~= cells@.take(i + 1));
            i = i + 1;
        }
        assert(copied@ =~= cells@);
        let mut reader = CellReader { cells: copied, index: 0, sector: 0, total_bytes: 0 };
        reader.enter(0);
        assert(cells@.skip(0) =~= cells@);
        reader
    }

    /// Goes to the first block of the first cell from `index` on that has one to
    /// be read.
    fn enter(&mut self, index: usize)
        requires
            index <= old(self).cells.len(),
        ensures
            final(self).well_formed(),
            final(self).cells == old(self).cells,
            final(self).total_bytes == old(self).total_bytes,
            final(self).remaining() == title_blocks(old(self).cells@.skip(index as int)),
    {
        let ghost cells = self.cells@;
        let mut i: usize = index;
        while i < self.cells.len() && !(self.cells[i].is_angle1() && self.cells[i].first_sector
            <= self.cells[i].last_sector)
            invariant
                i <= self.cells.len(),
                self.cells@ == cells,
                self.cells == old(self).cells,
                self.total_bytes == old(self).total_bytes,
                title_blocks(cells.skip(i as int)) == title_blocks(cells.skip(index as int)),
            decreases self.cells.len() - i,
        {
            proof {
                let rest = cells.skip(i as int);
                assert(rest[0] == cells[i as int]);
                assert(rest.skip(1) =~= cells.skip(i + 1));
                if rest[0].in_angle1() {
                    assert(title_blocks(rest) =~= title_blocks(rest.skip(1)));
                }
            }
            i = i + 1;
        }
        self.index = i;
        if i < self.cells.len() {
            self.sector = self.cells[i].first_sector as u64;
            proof {
                let rest = cells.skip(i as int);
                assert(rest[0] == cells[i as int]);
                assert(rest.skip(1) =~= cells.skip(i + 1));
            }
        } else {
            assert(cells.skip(i as int).len() == 0);
        }
    }

    /// The next blocks to ask for, none where all have been read: as many of the
    /// current cell as go into one chunk.
    pub fn next_request(&self) -> (r: Option<BlockRequest>)
        requires
            self.well_formed(),
        ensures
            match r {
                Some(request) => {
                    let left = self.cells[self.index as int].last_sector - self.sector + 1;
                    &&& request.count == if left < CHUNK_BLOCKS {
                        left
                    } else {
                        CHUNK_BLOCKS as int
                    }
                    &&& 0 < request.count <= self.remaining().len()
                    &&& self.remaining().take(request.count as int) == blocks_between(
                        request.sector as int,
                        request.sector + request.count - 1,
                    )
                },
                None => self.remaining().len() == 0 && self.total_bytes == self.whole_size(),
            },
    {
        if self.index >= self.cells.len() {
            return None;
        }
        let left: u64 = self.cells[self.index].last_sector as u64 - self.sector + 1;
        let count: u64 = if left < CHUNK_BLOCKS {
            left
        } else {
            CHUNK_BLOCKS
        };
        assert(self.remaining().take(count as int) =~= blocks_between(
            self.sector as int,
            self.sector + count - 1,
        ));
        Some(BlockRequest { sector: self.sector, count })
    }

    /// Counts `read` blocks off, and gives the number of bytes that they are.
    pub fn after_read(&mut self, read: u64) -> (bytes: u64)
        requires
            old(self).well_formed(),
            old(self).index < old(self).cells.len(),
            0 < read <= CHUNK_BLOCKS,
            old(self).sector + read - 1 <= old(self).cells[old(self).index as int].last_sector,
            old(self).total_bytes + read * BLOCK_SIZE <= u64::MAX,
        ensures
            final(self).well_formed(),
            final(self).cells == old(self).cells,
            final(self).remaining() == old(self).remaining().skip(read as int),
            bytes == read * BLOCK_SIZE,
            final(self).total_bytes == old(self).total_bytes + bytes,
            final(self).whole_size() == old(self).whole_size(),
    {
        let bytes: u64 = read * BLOCK_SIZE;
        self.total_bytes = self.total_bytes + bytes;
        let next: u64 = self.sector + read;
        let ghost before = old(self).remaining().skip(read as int);
        let ghost rest = title_blocks(self.cells@.skip(self.index + 1));
        if next <= self.cells[self.index].last_sector as u64 {
            self.sector = next;
            assert(self.remaining() =~= before);
        } else {
            assert(before =~= rest);
            let index: usize = self.index + 1;
            self.enter(index);
        }
        assert(self.remaining().len() + read == old(self).remaining().len());
        assert(BLOCK_SIZE * (self.remaining().len() + read) == BLOCK_SIZE * self.remaining().len()
            + BLOCK_SIZE * read) by (nonlinear_arith);
        bytes
    }
}

/// What is said where a read gives nothing.
pub open spec fn read_failure_text(sector: nat) -> Seq<char> {
    "DVDReadBlocks failed at sector "@ + text::decimal(sector)
}

/// Judges the answer to a request: the number of blocks read, or an error where
/// nothing came.
pub fn read_blocks(request: BlockRequest, read: i64) -> (r: Result<u64, String>)
    ensures
        match r {
            Ok(blocks) => read > 0 && blocks == read,
            Err(message) => read <= 0 && message@ == read_failure_text(request.sector as nat),
        },
{
    if read <= 0 {
        let mut message = "DVDReadBlocks failed at sector ".to_owned();
        text::push_decimal(&mut message, request.sector);
        return Err(message);
    }
    Ok(read as u64)
}

/// What is said of an IFO file without a size.
pub open spec fn no_size_text(title_set: i32) -> Seq<char> {
    "IFO for title set "@ + text::integer_text(title_set as int) + " has no size"@
}

/// The size in bytes of an IFO file of some blocks.
pub fn ifo_size(title_set: i32, blocks: i64) -> (r: Result<u64, String>)
    requires
        blocks * BLOCK_SIZE <= u64::MAX,
    ensures
        match r {
            Ok(size) => blocks > 0 && size == blocks * BLOCK_SIZE,
            Err(message) => blocks <= 0 && message@ == no_size_text(title_set),
        },
{
    if blocks <= 0 {
        let mut message = "IFO for title set ".to_owned();
        text::push_integer(&mut message, title_set);
        message.append(" has no size");
        return Err(message);
    }
    Ok(blocks as u64 * BLOCK_SIZE)
}

/// Every block of an angle-1 cell is read, and no block that only cells of other
/// angles hold.
pub proof fn only_angle_one_is_read(cells: Seq<CellPlayback>, block: int)
    ensures
        title_blocks(cells).contains(block) <==> exists|i: int|
            0 <= i < cells.len() && (#[trigger] cells[i]).in_angle1() && cells[i].first_sector
                <= block <= cells[i].last_sector,
    decreases cells.len(),
{
    let blocks = title_blocks(cells);
    if cells.len() > 0 {
        let rest = cells.skip(1);
        let later = title_blocks(rest);
        only_angle_one_is_read(rest, block);
        let own = blocks_between(cells[0].first_sector as int, cells[0].last_sector as int);
        if blocks.contains(block) {
            if cells[0].in_angle1() {
                let k = choose|k: int| 0 <= k < blocks.len() && blocks[k] == block;
                if k < own.len() {
                    assert(cells[0].first_sector <= block <= cells[0].last_sector);
                } else {
                    assert(later[k - own.len()] == block);
                }
            }
            if later.contains(block) {
                let i = choose|i: int|
                    0 <= i < rest.len() && (#[trigger] rest[i]).in_angle1() && rest[i].first_sector
                        <= block <= rest[i].last_sector;
                assert(cells[i + 1] == rest[i]);
            }
        }
        if exists|i: int|
            0 <= i < cells.len() && (#[trigger] cells[i]).in_angle1() && cells[i].first_sector
                <= block <= cells[i].last_sector {
            let i = choose|i: int|
                0 <= i < cells.len() && (#[trigger] cells[i]).in_angle1() && cells[i].first_sector
                    <= block <= cells[i].last_sector;
            if i == 0 {
                assert(own[block - cells[0].first_sector] == block);
                assert(blocks[block - cells[0].first_sector] == block);
            } else {
                assert(rest[i - 1] == cells[i]);
                let k = choose|k: int| 0 <= k < later.len() && later[k] == block;
                if cells[0].in_angle1() {
                    assert(blocks[own.len() + k] == block);
                } else {
                    assert(blocks[k] == block);
                }
            }
        }
    }
}

// --- reports ---

/// Ticks as hours, minutes and seconds.
pub open spec fn ticks_text(ticks: u64) -> Seq<char> {
    text::clock((ticks / ifo::TICKS_PER_SECOND) as nat)
}

fn push_ticks(line: &mut String, ticks: u64)
    ensures
        final(line)@ == old(line)@ + ticks_text(ticks),
{
    text::push_clock(line, ticks / ifo::TICKS_PER_SECOND);
}

/// The title set of each title.
pub open spec fn title_sets(vmg: Seq<VmgTitle>) -> Seq<u8> {
    vmg.map_values(|t: VmgTitle| t.title_set_nr)
}

fn count_title_sets(vmg: &Vec<VmgTitle>) -> (r: usize)
    ensures
        r == title_sets(vmg@).to_set().len(),
{
    let mut seen: Vec<u8> = Vec::new();
    let mut i: usize = 0;
    assert(seen@.to_set() =~= title_sets(vmg@).take(0).to_set());
    while i < vmg.len()
        invariant
            i <= vmg.len(),
            seen@.no_duplicates(),
            seen@.to_set() == title_sets(vmg@).take(i as int).to_set(),
        decreases vmg.len() - i,
    {
        let set: u8 = vmg[i].title_set_nr;
        let ghost sets = title_sets(vmg@);
        let mut k: usize = 0;
        while k < seen.len() && seen[k] != set
            invariant
                k <= seen.len(),
                forall|j: int| 0 <= j < k ==> seen@[j] != set,
            decreases seen.len() - k,
        {
            k = k + 1;
        }
        let ghost before = seen@;
        assert(sets.take(i + 1) =~= sets.take(i as int).push(set));
        proof {
            sets.take(i as int).lemma_push_to_set_commute(set);
            before.lemma_push_to_set_commute(set);
        }
        if k == seen.len() {
            seen.push(set);
        } else {
            assert(before.contains(set));
            assert(before.to_set().contains(set));
            assert(before.to_set().insert(set) =~= before.to_set());
        }
        i = i + 1;
    }
    proof {
        assert(title_sets(vmg@).take(i as int) =~= title_sets(vmg@));
        seen@.unique_seq_to_set();
    }
    seen.len()
}

/// The line about a title in the disc's table.
pub open spec fn entry_line(t: VmgTitle) -> Seq<char> {
    "  Title "@ + text::padded(text::decimal(t.title_nr as nat), 2, ' ') + ": VTS "@
        + text::decimal(t.title_set_nr as nat) + "  angles="@ + text::decimal(t.nr_of_angles as nat)
        + "  chapters="@ + text::decimal(t.nr_of_ptts as nat)
}

/// The lines about the titles in the disc's table.
pub open spec fn entry_lines(vmg: Seq<VmgTitle>) -> Seq<Seq<char>> {
    Seq::new(vmg.len(), |i: int| entry_line(vmg[i]))
}

/// All lines about a disc.
pub open spec fn info_lines(vmg: Seq<VmgTitle>) -> Seq<Seq<char>> {
    seq![
        "DVD-Video Info:"@,
        "  Titles: "@ + text::decimal(vmg.len()),
        "  Title sets (VTS): "@ + text::decimal(title_sets(vmg).to_set().len()),
    ] + entry_lines(vmg)
}

/// All lines about a disc: how many titles and title sets it has, and its table
/// of titles.
pub fn disc_info(vmg: &Vec<VmgTitle>) -> (r: Vec<String>)
    ensures
        r.deep_view() == info_lines(vmg@),
{
    let mut lines: Vec<String> = list::single("DVD-Video Info:".to_owned());
    let mut line = "  Titles: ".to_owned();
    text::push_decimal(&mut line, vmg.len() as u64);
    list::push(&mut lines, line);
    let mut line = "  Title sets (VTS): ".to_owned();
    text::push_decimal(&mut line, count_title_sets(vmg) as u64);
    list::push(&mut lines, line);
    let ghost head = lines.deep_view();
    let ghost entries = entry_lines(vmg@);
    assert(head + entries =~= info_lines(vmg@));
    let mut i: usize = 0;
    assert(head =~= head + entries.take(0));
    while i < vmg.len()
        invariant
            i <= vmg.len(),
            entries == entry_lines(vmg@),
            lines.deep_view() == head + entries.take(i as int),
        decreases vmg.len() - i,
    {
        let t = vmg[i];
        let mut line = "  Title ".to_owned();
        text::push_padded_decimal(&mut line, t.title_nr as u64, 2, ' ');
        line.append(": VTS ");
        text::push_decimal(&mut line, t.title_set_nr as u64);
        line.append("  angles=");
        text::push_decimal(&mut line, t.nr_of_angles as u64);
        line.append("  chapters=");
        text::push_decimal(&mut line, t.nr_of_ptts as u64);
        list::push(&mut lines, line);
        assert(lines.deep_view() =~= head + entries.take(i + 1));
        i = i + 1;
    }
    assert(entries.take(i as int) =~= entries);
    lines
}

/// A language code that may be missing.
pub open spec fn lang_text(lang: Option<Seq<char>>) -> Seq<char> {
    match lang {
        Some(code) => code,
        None => "??"@,
    }
}

fn push_lang(line: &mut String, lang: &Option<String>)
    ensures
        final(line)@ == old(line)@ + lang_text(lang.deep_view()),
{
    match lang {
        Some(code) => line.append(code.as_str()),
        None => line.append("??"),
    }
}

/// The line about an audio stream.
pub open spec fn audio_line(attr: ifo::AudioAttrModel, n: u8) -> Seq<char> {
    "    Audio  codec="@ + attr.coding.name_text() + "  lang="@ + lang_text(attr.lang)
        + "  channels="@ + text::decimal(attr.channels as nat) + "  id=0x"@ + text::padded(
        text::hexadecimal((attr.coding.first_stream_id() + n) as nat),
        4,
        '0',
    )
}

/// The lines about those of the first `n` audio streams that the title has.
pub open spec fn audio_lines(
    attrs: Seq<ifo::AudioAttrModel>,
    control: Seq<u16>,
    n: int,
) -> Seq<Seq<char>>
    decreases n,
{
    if n <= 0 {
        Seq::empty()
    } else if audio_present(control[n - 1]) {
        audio_lines(attrs, control, n - 1).push(
            audio_line(attrs[n - 1], audio_number(control[n - 1])),
        )
    } else {
        audio_lines(attrs, control, n - 1)
    }
}

fn audio_reports(vts: &VtsInfo, pgc: &Pgc) -> (r: Vec<String>)
    requires
        vts.well_formed(),
    ensures
        r.deep_view() == audio_lines(
            vts.audio_attrs.deep_view(),
            pgc.audio_control@,
            vts.audio_attrs.len() as int,
        ),
{
    let ghost attrs = vts.audio_attrs.deep_view();
    let mut lines: Vec<String> = list::empty();
    let mut i: usize = 0;
    while i < vts.audio_attrs.len()
        invariant
            i <= vts.audio_attrs.len() <= 8,
            attrs == vts.audio_attrs.deep_view(),
            lines.deep_view() == audio_lines(attrs, pgc.audio_control@, i as int),
        decreases vts.audio_attrs.len() - i,
    {
        let attr = &vts.audio_attrs[i];
        assert(attrs[i as int] == attr.deep_view());
        if let Some(n) = audio_stream_number(pgc.audio_control[i]) {
            let mut line = "    Audio  codec=".to_owned();
            line.append(attr.coding.name().as_str());
            line.append("  lang=");
            push_lang(&mut line, &attr.lang);
            line.append("  channels=");
            text::push_decimal(&mut line, attr.channels as u64);
            line.append("  id=0x");
            text::push_padded_hex(&mut line, ifo::audio_stream_id(attr.coding, n) as u64, 4);
            list::push(&mut lines, line);
        }
        i = i + 1;
    }
    lines
}

/// The line about a subtitle stream.
pub open spec fn subtitle_line(attr: ifo::SubpAttrModel, n: u8) -> Seq<char> {
    "    Subtitle  lang="@ + lang_text(attr.lang) + "  id=0x"@ + text::padded(
        text::hexadecimal((0x20 + n) as nat),
        4,
        '0',
    )
}

/// The lines about those of the first `n` subtitle streams that the title has.
pub open spec fn subtitle_lines(
    attrs: Seq<ifo::SubpAttrModel>,
    control: Seq<u32>,
    widescreen: bool,
    n: int,
) -> Seq<Seq<char>>
    decreases n,
{
    if n <= 0 {
        Seq::empty()
    } else if subp_present(control[n - 1]) {
        subtitle_lines(attrs, control, widescreen, n - 1).push(
            subtitle_line(attrs[n - 1], subp_number(control[n - 1], widescreen)),
        )
    } else {
        subtitle_lines(attrs, control, widescreen, n - 1)
    }
}

fn subtitle_reports(vts: &VtsInfo, pgc: &Pgc) -> (r: Vec<String>)
    requires
        vts.well_formed(),
    ensures
        r.deep_view() == subtitle_lines(
            vts.subp_attrs.deep_view(),
            pgc.subp_control@,
            vts.widescreen,
            vts.subp_attrs.len() as int,
        ),
{
    let ghost attrs = vts.subp_attrs.deep_view();
    let mut lines: Vec<String> = list::empty();
    let mut i: usize = 0;
    while i < vts.subp_attrs.len()
        invariant
            i <= vts.subp_attrs.len() <= 32,
            attrs == vts.subp_attrs.deep_view(),
            lines.deep_view() == subtitle_lines(
                attrs,
                pgc.subp_control@,
                vts.widescreen,
                i as int,
            ),
        decreases vts.subp_attrs.len() - i,
    {
        let attr = &vts.subp_attrs[i];
        assert(attrs[i as int] == attr.deep_view());
        let ctrl: u32 = pgc.subp_control[i];
        if has_subpicture(ctrl) {
            let n: u8 = subp_stream_number(ctrl, vts.widescreen);
            let mut line = "    Subtitle  lang=".to_owned();
            push_lang(&mut line, &attr.lang);
            line.append("  id=0x");
            text::push_padded_hex(&mut line, ifo::subp_stream_id(n) as u64, 4);
            list::push(&mut lines, line);
        }
        i = i + 1;
    }
    lines
}

/// The first words of a line about a title.
pub open spec fn title_head(entry: VmgTitle) -> Seq<char> {
    "Title "@ + text::padded(text::decimal(entry.title_nr as nat), 3, ' ')
}

/// The line about a title that can be played.
pub open spec fn title_line(entry: VmgTitle, pgcn: u16, pgc: ifo::PgcModel) -> Seq<char> {
    title_head(entry) + "  vts="@ + text::two_digits(entry.title_set_nr as nat) + " pgc="@
        + text::two_digits(pgcn as nat) + "  duration="@ + ticks_text(pgc.playback_ticks)
        + "  angles="@ + text::decimal(entry.nr_of_angles as nat) + "  chapters="@ + text::decimal(
        entry.nr_of_ptts as nat,
    ) + "  cells="@ + text::decimal(pgc.cells.len())
}

/// The title set of a title as far as it could be read.
#[derive(Debug)]
pub enum VtsRead {
    Read(VtsInfo),
    Failed(String),
}

impl VtsRead {
    /// What was read is well-formed.
    pub open spec fn well_formed(self) -> bool {
        self matches VtsRead::Read(vts) ==> vts.well_formed()
    }
}

/// All lines about a title: one line where its title set cannot be read or it
/// has no program chain, else its data and its streams, with an empty line at
/// the end.
pub open spec fn title_lines(entry: VmgTitle, read: VtsRead) -> Seq<Seq<char>> {
    match read {
        VtsRead::Failed(error) => seq![
            title_head(entry) + "  (failed to read VTS "@ + text::decimal(entry.title_set_nr as nat)
                + ": "@ + error@ + ")"@,
        ],
        VtsRead::Read(vts) => match vts.deep_view().pgcn_for_title(entry.vts_ttn) {
            None => seq![title_head(entry) + "  (no PGC)"@],
            Some(pgcn) => {
                let pgc = vts.deep_view().pgcs[pgcn - 1];
                seq![title_line(entry, pgcn, pgc)] + audio_lines(
                    vts.deep_view().audio_attrs,
                    pgc.audio_control,
                    vts.audio_attrs.len() as int,
                ) + subtitle_lines(
                    vts.deep_view().subp_attrs,
                    pgc.subp_control,
                    vts.widescreen,
                    vts.subp_attrs.len() as int,
                ) + seq![Seq::<char>::empty()]
            },
        },
    }
}

/// All lines about a title.
pub fn title_reports(entry: &VmgTitle, read: &VtsRead) -> (r: Vec<String>)
    requires
        read.well_formed(),
    ensures
        r.deep_view() == title_lines(*entry, *read),
{
    let mut line = "Title ".to_owned();
    text::push_padded_decimal(&mut line, entry.title_nr as u64, 3, ' ');
    let vts = match read {
        VtsRead::Failed(error) => {
            line.append("  (failed to read VTS ");
            text::push_decimal(&mut line, entry.title_set_nr as u64);
            line.append(": ");
            line.append(error.as_str());
            line.append(")");
            return list::single(line);
        },
        VtsRead::Read(vts) => vts,
    };
    match vts.pgc_for_title(entry.vts_ttn) {
        None => {
            line.append("  (no PGC)");
            list::single(line)
        },
        Some((pgcn, pgc)) => {
            assert(vts.deep_view().pgcs[pgcn - 1] == pgc.deep_view());
            line.append("  vts=");
            text::push_two_digits(&mut line, entry.title_set_nr as u64);
            line.append(" pgc=");
            text::push_two_digits(&mut line, pgcn as u64);
            line.append("  duration=");
            push_ticks(&mut line, pgc.playback_ticks);
            line.append("  angles=");
            text::push_decimal(&mut line, entry.nr_of_angles as u64);
            line.append("  chapters=");
            text::push_decimal(&mut line, entry.nr_of_ptts as u64);
            line.append("  cells=");
            text::push_decimal(&mut line, pgc.cells.len() as u64);
            let mut lines: Vec<String> = list::single(line);
            list::extend(&mut lines, audio_reports(vts, pgc));
            list::extend(&mut lines, subtitle_reports(vts, pgc));
            let blank: Vec<String> = list::single(String::new());
            list::extend(&mut lines, blank);
            lines
        },
    }
}

/// The lines about each title of a disc.
pub open spec fn lines_of_title(titles: Seq<(VmgTitle, VtsRead)>) -> spec_fn(int) -> Seq<
    Seq<char>,
> {
    |i: int| title_lines(titles[i].0, titles[i].1)
}

/// The listing of a disc, title by title.
pub fn list_titles(titles: &Vec<(VmgTitle, VtsRead)>) -> (r: Vec<String>)
    requires
        forall|i: int| 0 <= i < titles.len() ==> (#[trigger] titles[i]).1.well_formed(),
    ensures
        r.deep_view() == list::flat(titles.len() as int, lines_of_title(titles@)),
{
    let mut lines: Vec<String> = list::empty();
    let mut i: usize = 0;
    while i < titles.len()
        invariant
            i <= titles.len(),
            forall|k: int| 0 <= k < titles.len() ==> (#[trigger] titles[k]).1.well_formed(),
            lines.deep_view() == list::flat(i as int, lines_of_title(titles@)),
        decreases titles.len() - i,
    {
        let entry = titles[i].0;
        list::extend(&mut lines, title_reports(&entry, &titles[i].1));
        i = i + 1;
    }
    lines
}

/// A stream is there where the top bit of its control word is set. An audio stream's
/// number stands in the low three bits of the upper byte; a subpicture's in the low
/// five bits of the second byte for wide pictures and of the first for others.
pub proof fn control_words_say_what_their_bits_say(audio: u16, subp: u32)
    ensures
        audio_present(audio) <==> audio >= 0x8000,
        audio_number(audio) == audio as int / 0x100 % 8,
        subp_present(subp) <==> subp >= 0x8000_0000,
        subp_number(subp, true) == subp as int / 0x1_0000 % 32,
        subp_number(subp, false) == subp as int / 0x100_0000 % 32,
{
    assert((audio & 0x8000 != 0) == (audio >= 0x8000)) by (bit_vector);
    assert(((audio >> 8) & 0x07) as u8 == audio / 0x100 % 8) by (bit_vector);
    assert((subp & 0x8000_0000 != 0) == (subp >= 0x8000_0000)) by (bit_vector);
    assert(((subp >> 16) & 0x1F) as u8 == subp / 0x1_0000 % 32) by (bit_vector);
    assert(((subp >> 24) & 0x1F) as u8 == subp / 0x100_0000 % 32) by (bit_vector);
}

/// The blocks of a title are those of its cells one after the other. A cell outside
/// of angle blocks or first in one gives its blocks from the first sector through the
/// last, in order; another gives none.
pub proof fn blocks_follow_the_cells(before: Seq<CellPlayback>, cell: CellPlayback)
    ensures
        title_blocks(Seq::empty()).len() == 0,
        cell.block_mode > 1 ==> title_blocks(before.push(cell)) == title_blocks(before),
        cell.block_mode <= 1 && cell.first_sector <= cell.last_sector ==> ({
            let after = title_blocks(before.push(cell));
            let n = title_blocks(before).len();
            &&& after.len() == n + (cell.last_sector - cell.first_sector + 1)
            &&& after.take(n as int) == title_blocks(before)
            &&& forall|k: int|
                n <= k < after.len() ==> #[trigger] after[k] == cell.first_sector + (k - n)
        }),
{
    lemma_blocks_push(before, cell);
    let after = title_blocks(before.push(cell));
    assert(after.take(title_blocks(before).len() as int) =~= title_blocks(before)) by {
        assert(after.len() >= title_blocks(before).len());
    }
}

proof fn lemma_blocks_push(before: Seq<CellPlayback>, cell: CellPlayback)
    ensures
        title_blocks(before.push(cell)) == title_blocks(before) + if cell.in_angle1() {
            blocks_between(cell.first_sector as int, cell.last_sector as int)
        } else {
            Seq::empty()
        },
    decreases before.len(),
{
    let cells = before.push(cell);
    let own = if cell.in_angle1() {
        blocks_between(cell.first_sector as int, cell.last_sector as int)
    } else {
        Seq::empty()
    };
    assert(title_blocks(Seq::<CellPlayback>::empty()) =~= Seq::empty());
    if before.len() == 0 {
        assert(before =~= Seq::empty());
        assert(cells.skip(1) =~= Seq::empty());
        assert(title_blocks(cells) =~= own);
        assert(title_blocks(before) + own =~= own);
    } else {
        let rest = before.skip(1);
        lemma_blocks_push(rest, cell);
        assert(cells.skip(1) =~= rest.push(cell));
        assert(cells[0] == before[0]);
        if before[0].in_angle1() {
            let first = blocks_between(
                before[0].first_sector as int,
                before[0].last_sector as int,
            );
            assert(first + (title_blocks(rest) + own) =~= (first + title_blocks(rest)) + own);
        }
    }
}

/// A length is shown in whole seconds of 90,000 ticks.
pub proof fn lengths_are_shown_in_seconds(secs: u64, ticks: u64)
    requires
        90_000 * secs <= ticks < 90_000 * (secs + 1),
    ensures
        ticks_text(ticks) == text::clock(secs as nat),
{
}

/// Each audio stream that is there gets a line with its identifier, in order; the
/// others get none.
pub proof fn present_audio_streams_get_a_line(
    attrs: Seq<ifo::AudioAttrModel>,
    control: Seq<u16>,
    k: int,
    n: int,
)
    requires
        0 <= k < n <= attrs.len(),
    ensures
        ({
            let at = audio_lines(attrs, control, k).len();
            let lines = audio_lines(attrs, control, n);
            let code = match attrs[k].lang {
                Some(code) => code,
                None => "??"@,
            };
            let id = attrs[k].coding.first_stream_id() + control[k] as int / 0x100 % 8;
            &&& control[k] < 0x8000 ==> audio_lines(attrs, control, k + 1).len() == at
            &&& control[k] >= 0x8000 ==> at < lines.len() && lines[at as int]
                == "    Audio  codec="@ + attrs[k].coding.name_text() + "  lang="@ + code
                + "  channels="@ + text::decimal(attrs[k].channels as nat) + "  id=0x"@
                + text::padded(text::hexadecimal(id as nat), 4, '0')
        }),
    decreases n,
{
    control_words_say_what_their_bits_say(control[k], 0);
    if k < n - 1 {
        present_audio_streams_get_a_line(attrs, control, k, n - 1);
    }
}

/// Each subpicture stream that is there gets a line with its identifier, in order;
/// the others get none.
pub proof fn present_subpictures_get_a_line(
    attrs: Seq<ifo::SubpAttrModel>,
    control: Seq<u32>,
    widescreen: bool,
    k: int,
    n: int,
)
    requires
        0 <= k < n <= attrs.len(),
    ensures
        ({
            let at = subtitle_lines(attrs, control, widescreen, k).len();
            let lines = subtitle_lines(attrs, control, widescreen, n);
            let code = match attrs[k].lang {
                Some(code) => code,
                None => "??"@,
            };
            let id = 0x20 + if widescreen {
                control[k] as int / 0x1_0000 % 32
            } else {
                control[k] as int / 0x100_0000 % 32
            };
            &&& control[k] < 0x8000_0000 ==> subtitle_lines(
                attrs,
                control,
                widescreen,
                k + 1,
            ).len() == at
            &&& control[k] >= 0x8000_0000 ==> at < lines.len() && lines[at as int]
                == "    Subtitle  lang="@ + code + "  id=0x"@ + text::padded(
                text::hexadecimal(id as nat),
                4,
                '0',
            )
        }),
    decreases n,
{
    control_words_say_what_their_bits_say(0, control[k]);
    if k < n - 1 {
        present_subpictures_get_a_line(attrs, control, widescreen, k, n - 1);
    }
}

/// What is said of a title starts with the chain of its first chapter and ends with
/// an empty line; a title without a chain, or whose set could not be read, has a
/// single line.
pub proof fn titles_are_reported_by_their_chain(entry: VmgTitle, read: VtsRead)
    ensures
        read is Failed ==> title_lines(entry, read).len() == 1,
        read matches VtsRead::Read(vts) ==> {
            let model = vts.deep_view();
            let lines = title_lines(entry, read);
            match model.pgcn_for_title(entry.vts_ttn) {
                None => lines.len() == 1,
                Some(pgcn) => {
                    let pgc = model.pgcs[pgcn - 1];
                    &&& lines[0] == title_line(entry, pgcn, pgc)
                    &&& lines.last().len() == 0
                    &&& lines.len() == 2 + audio_lines(
                        model.audio_attrs,
                        pgc.audio_control,
                        model.audio_attrs.len() as int,
                    ).len() + subtitle_lines(
                        model.subp_attrs,
                        pgc.subp_control,
                        model.widescreen,
                        model.subp_attrs.len() as int,
                    ).len()
                },
            }
        },
{
}

/// A reader that stands at the first sector of a cell of angle 1 has the blocks of
/// that cell and of the cells behind it to read; one block further in, the same
/// without the first; behind the last cell, nothing.
pub proof fn readers_have_the_rest_to_read(reader: CellReader, next: CellReader)
    requires
        reader.well_formed(),
    ensures
        reader.index >= reader.cells.len() ==> reader.remaining().len() == 0,
        reader.index < reader.cells.len() && reader.sector
            == reader.cells[reader.index as int].first_sector ==> reader.remaining()
            == title_blocks(reader.cells@.skip(reader.index as int)),
        reader.index < reader.cells.len() ==> reader.remaining().len() > 0 && reader.remaining()[0]
            == reader.sector,
        next.cells@ == reader.cells@ && next.index == reader.index && reader.index
            < reader.cells.len() && next.sector == reader.sector + 1 ==> next.remaining()
            == reader.remaining().skip(1),
{
    if reader.index < reader.cells.len() {
        let rest = reader.cells@.skip(reader.index as int);
        assert(rest[0] == reader.cells[reader.index as int]);
        assert(rest.skip(1) =~= reader.cells@.skip(reader.index + 1));
        if next.cells@ == reader.cells@ && next.index == reader.index && next.sector
            == reader.sector + 1 {
            assert(next.remaining() =~= reader.remaining().skip(1));
        }
    }
}

} // verus!
