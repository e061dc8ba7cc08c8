//! Re-encoding audio: cutting the decoded samples into the frames that the
//! encoder takes.
use vstd::prelude::*;

verus! {

/// How a codec answers a call, as far as it matters here.
#[derive(Clone, Copy, Debug, PartialEq, Eq, Structural)]
pub enum CodecReply {
    Done,
    /// An error of the operating system's kind, such as "try again".
    Other,
    Eof,
    InvalidData,
    /// Any other error.
    Failed,
}

/// What follows from a codec's answer.
#[derive(Clone, Copy, Debug, PartialEq, Eq, Structural)]
pub enum ReplyAction {
    /// Go on with what was asked for.
    Proceed,
    /// Nothing came, and nothing is wrong.
    Stop,
    /// Hand the error on.
    Fail,
}

/// Decides about the answer of an encoder that is asked for a packet: it has
/// none for now, it has none any more, or it is broken.
pub fn drained(reply: CodecReply) -> (r: ReplyAction)
    ensures
        r == match reply {
            CodecReply::Done => ReplyAction::Proceed,
            CodecReply::Other => ReplyAction::Stop,
            CodecReply::Eof => ReplyAction::Stop,
            CodecReply::InvalidData => ReplyAction::Fail,
            CodecReply::Failed => ReplyAction::Fail,
        },
{
    match reply {
        CodecReply::Done => ReplyAction::Proceed,
        CodecReply::Other | CodecReply::Eof => ReplyAction::Stop,
        CodecReply::InvalidData | CodecReply::Failed => ReplyAction::Fail,
    }
}

/// Decides about the answer of an audio decoder that is sent a packet. TrueHD
/// (and some other codecs) can refuse initial sync / header-only packets as
/// invalid data; they are skipped rather than ending the run.
pub fn sent(reply: CodecReply) -> (r: ReplyAction)
    ensures
        r == match reply {
            CodecReply::Done => ReplyAction::Proceed,
            CodecReply::InvalidData => ReplyAction::Stop,
            CodecReply::Other => ReplyAction::Fail,
            CodecReply::Eof => ReplyAction::Fail,
            CodecReply::Failed => ReplyAction::Fail,
        },
{
    match reply {
        CodecReply::Done => ReplyAction::Proceed,
        CodecReply::InvalidData => ReplyAction::Stop,
        CodecReply::Other | CodecReply::Eof | CodecReply::Failed => ReplyAction::Fail,
    }
}

/// One frame to take from the buffer: how many samples, and its timestamp.
#[derive(Clone, Copy, Debug, PartialEq, Eq, Structural)]
pub struct Chunk {
    pub samples: i32,
    pub pts: i64,
}

/// Cuts buffered samples into frames and counts them for the timestamps.
#[derive(Clone, Copy, Debug, PartialEq, Eq, Structural)]
pub struct AudioFramer {
    /// Required frame size (0 = encoder accepts variable sizes)
    pub frame_size: usize,
    /// Running sample count for PTS assignment
    pub next_pts: i64,
}

/// The size of the next frame from a buffer, 0 for none. Unless the buffer is
/// being emptied, only full frames are taken.
pub open spec fn chunk_size(frame_size: int, available: int, flush: bool) -> int {
    if flush && available > 0 || !flush && available >= frame_size {
        if available < frame_size {
            available
        } else {
            frame_size
        }
    } else {
        0
    }
}

/// The sizes of all frames that are taken from a buffer, one after another.
pub open spec fn chunk_sizes(frame_size: int, available: int, flush: bool) -> Seq<int>
    decreases available,
{
    let size = chunk_size(frame_size, available, flush);
    if frame_size <= 0 || size <= 0 {
        Seq::empty()
    } else {
        seq![size] + chunk_sizes(frame_size, available - size, flush)
    }
}

/// The sum of some sizes.
pub open spec fn total(sizes: Seq<int>) -> int
    decreases sizes.len(),
{
    if sizes.len() == 0 {
        0
    } else {
        sizes[0] + total(sizes.skip(1))
    }
}

impl AudioFramer {
    /// The frame size is one that an encoder can ask for.
    pub open spec fn well_formed(self) -> bool {
        self.frame_size <= i32::MAX
    }

    pub fn new(frame_size: usize) -> (r: Self)
        requires
            frame_size <= i32::MAX,
        ensures
            r == (AudioFramer { frame_size, next_pts: 0 }),
            r.well_formed(),
    {
        AudioFramer { frame_size, next_pts: 0 }
    }

    /// Does the encoder take frames as they come, past the buffer?
    pub fn takes_any_size(&self) -> (r: bool)
        ensures
            r == (self.frame_size == 0),
    {
        self.frame_size == 0
    }

    /// How many samples the buffer should hold at first.
    pub fn initial_capacity(&self) -> (r: i32)
        requires
            self.well_formed(),
        ensures
            r == if self.frame_size == 0 {
                1
            } else {
                self.frame_size as int
            },
    {
        if self.frame_size == 0 {
            1
        } else {
            self.frame_size as i32
        }
    }

    /// The next frame to take from a buffer with `available` samples. Its
    /// timestamp is the number of samples taken before it.
    pub fn next_chunk(&mut self, available: i32, flush: bool) -> (r: Option<Chunk>)
        requires
            old(self).well_formed(),
            old(self).frame_size > 0,
            old(self).next_pts + chunk_size(
                old(self).frame_size as int,
                available as int,
                flush,
            ) <= i64::MAX,
        ensures
            ({
                let size = chunk_size(old(self).frame_size as int, available as int, flush);
                if size > 0 {
                    r == Some(Chunk { samples: size as i32, pts: old(self).next_pts })
                } else {
                    r is None
                }
            }),
            *final(self) == (AudioFramer {
                next_pts: (old(self).next_pts + chunk_size(
                    old(self).frame_size as int,
                    available as int,
                    flush,
                )) as i64,
                ..*old(self)
            }),
            final(self).well_formed(),
    {
        let frame_size: i32 = self.frame_size as i32;
        let enough: bool = if flush {
            available > 0
        } else {
            available >= frame_size
        };
        if !enough {
            return None;
        }
        let samples: i32 = if available < frame_size {
            available
        } else {
            frame_size
        };
        let pts: i64 = self.next_pts;
        self.next_pts = pts + samples as i64;
        Some(Chunk { samples, pts })
    }

    /// All frames to take from a buffer with `available` samples, in order.
    pub fn cut(&mut self, available: i32, flush: bool) -> (r: Vec<Chunk>)
        requires
            old(self).well_formed(),
            old(self).frame_size > 0,
            old(self).next_pts + total(
                chunk_sizes(old(self).frame_size as int, available as int, flush),
            ) <= i64::MAX,
        ensures
            frames(r@) == frames_of(
                old(self).frame_size as int,
                old(self).next_pts as int,
                available as int,
                flush,
            ),
            *final(self) == (AudioFramer {
                next_pts: (old(self).next_pts + total(
                    chunk_sizes(old(self).frame_size as int, available as int, flush),
                )) as i64,
                ..*old(self)
            }),
            final(self).well_formed(),
    {
        let ghost size = self.frame_size as int;
        let ghost start = self.next_pts as int;
        let ghost all = frames_of(size, start, available as int, flush);
        let mut chunks: Vec<Chunk> = Vec::new();
        let mut left: i32 = available;
        assert(all =~= frames(chunks@) + frames_of(size, start, available as int, flush));
        loop
            invariant_except_break
                self.well_formed(),
                self.frame_size == old(self).frame_size,
                size == self.frame_size > 0,
                left <= available,
                all == frames(chunks@) + frames_of(
                    size,
                    self.next_pts as int,
                    left as int,
                    flush,
                ),
                self.next_pts + total(chunk_sizes(size, left as int, flush)) == start + total(
                    chunk_sizes(size, available as int, flush),
                ),
                start + total(chunk_sizes(size, available as int, flush)) <= i64::MAX,
            ensures
                self.well_formed(),
                self.frame_size == old(self).frame_size,
                all == frames(chunks@),
                self.next_pts == start + total(chunk_sizes(size, available as int, flush)),
            decreases left,
        {
            let ghost at = self.next_pts as int;
            let ghost sizes = chunk_sizes(size, left as int, flush);
            proof {
                lemma_total_is_not_negative(size, left as int, flush);
                if chunk_size(size, left as int, flush) > 0 {
                    let next = chunk_size(size, left as int, flush);
                    lemma_total_is_not_negative(size, left - next, flush);
                    assert(sizes.skip(1) =~= chunk_sizes(size, left - next, flush));
                }
            }
            match self.next_chunk(left, flush) {
                Some(chunk) => {
                    let ghost before = frames(chunks@);
                    chunks.push(chunk);
                    left = left - chunk.samples;
                    assert(frames(chunks@) =~= before.push((chunk.samples as int, at)));
                    assert(all =~= frames(chunks@) + frames_of(
                        size,
                        self.next_pts as int,
                        left as int,
                        flush,
                    ));
                },
                None => {
                    assert(all =~= frames(chunks@));
                    break;
                },
            }
        }
        chunks
    }
}

/// Frames as pairs of their sizes and timestamps.
pub open spec fn frames(chunks: Seq<Chunk>) -> Seq<(int, int)> {
    chunks.map_values(|c: Chunk| (c.samples as int, c.pts as int))
}

/// The frames that are taken from a buffer, the first with the timestamp
/// `next_pts` and each other with that of the one before plus its size.
pub open spec fn frames_of(frame_size: int, next_pts: int, available: int, flush: bool) -> Seq<
    (int, int),
>
    decreases available,
{
    let size = chunk_size(frame_size, available, flush);
    if frame_size <= 0 || size <= 0 {
        Seq::empty()
    } else {
        seq![(size, next_pts)] + frames_of(
            frame_size,
            next_pts + size,
            available - size,
            flush,
        )
    }
}

/// The samples in some frames.
pub open spec fn samples_in(frames: Seq<(int, int)>) -> int
    decreases frames.len(),
{
    if frames.len() == 0 {
        0
    } else {
        samples_in(frames.drop_last()) + frames.last().0
    }
}

proof fn lemma_total_is_not_negative(frame_size: int, available: int, flush: bool)
    ensures
        total(chunk_sizes(frame_size, available, flush)) >= 0,
    decreases available,
{
    let size = chunk_size(frame_size, available, flush);
    if frame_size > 0 && size > 0 {
        lemma_total_is_not_negative(frame_size, available - size, flush);
        assert(chunk_sizes(frame_size, available, flush).skip(1) =~= chunk_sizes(
            frame_size,
            available - size,
            flush,
        ));
    }
}

/// The buffer before an encoder: how many samples are in it, and how many have
/// been sent to the encoder.
pub ghost struct BufferState {
    pub buffered: int,
    pub sent: int,
}

/// The buffer after `incoming` samples have been put in and all frames that are due
/// have been taken out.
pub open spec fn after_feed(
    frame_size: int,
    state: BufferState,
    incoming: int,
    flush: bool,
) -> BufferState {
    let taken = total(chunk_sizes(frame_size, state.buffered + incoming, flush));
    BufferState { buffered: state.buffered + incoming - taken, sent: state.sent + taken }
}

/// The frames that are taken out then.
pub open spec fn fed_frames(
    frame_size: int,
    state: BufferState,
    incoming: int,
    flush: bool,
) -> Seq<(int, int)> {
    frames_of(frame_size, state.sent, state.buffered + incoming, flush)
}

/// The buffer after some calls, each with a number of samples and whether it
/// empties the buffer, and all frames that were taken out.
pub open spec fn after_calls(frame_size: int, calls: Seq<(nat, bool)>) -> (
    BufferState,
    Seq<(int, int)>,
)
    decreases calls.len(),
{
    if calls.len() == 0 {
        (BufferState { buffered: 0, sent: 0 }, Seq::empty())
    } else {
        let (state, taken) = after_calls(frame_size, calls.drop_last());
        let (incoming, flush) = calls.last();
        (
            after_feed(frame_size, state, incoming as int, flush),
            taken + fed_frames(frame_size, state, incoming as int, flush),
        )
    }
}

/// The samples in some calls.
pub open spec fn samples_fed(calls: Seq<(nat, bool)>) -> int
    decreases calls.len(),
{
    if calls.len() == 0 {
        0
    } else {
        samples_fed(calls.drop_last()) + calls.last().0
    }
}

proof fn lemma_samples_in_concat(a: Seq<(int, int)>, b: Seq<(int, int)>)
    ensures
        samples_in(a + b) == samples_in(a) + samples_in(b),
    decreases b.len(),
{
    if b.len() == 0 {
        assert(a + b =~= a);
    } else {
        assert((a + b).drop_last() =~= a + b.drop_last());
        lemma_samples_in_concat(a, b.drop_last());
    }
}

proof fn lemma_frames_of(frame_size: int, next_pts: int, available: int, flush: bool)
    requires
        frame_size > 0,
        available >= 0,
    ensures
        ({
            let frames = frames_of(frame_size, next_pts, available, flush);
            let sizes = chunk_sizes(frame_size, available, flush);
            &&& frames.len() == sizes.len()
            &&& samples_in(frames) == total(sizes)
            &&& forall|i: int|
                0 <= i < frames.len() ==> {
                    &&& (#[trigger] frames[i]).0 == sizes[i]
                    &&& frames[i].1 == next_pts + samples_in(frames.take(i))
                }
        }),
    decreases available,
{
    let frames = frames_of(frame_size, next_pts, available, flush);
    let sizes = chunk_sizes(frame_size, available, flush);
    let size = chunk_size(frame_size, available, flush);
    if size > 0 {
        lemma_frames_of(frame_size, next_pts + size, available - size, flush);
        let rest = frames_of(frame_size, next_pts + size, available - size, flush);
        let first = seq![(size, next_pts)];
        assert(frames == first + rest);
        assert(sizes.skip(1) =~= chunk_sizes(frame_size, available - size, flush));
        assert(first.drop_last() =~= Seq::<(int, int)>::empty());
        assert(samples_in(first.drop_last()) == 0);
        assert(samples_in(first) == size);
        lemma_samples_in_concat(first, rest);
        assert forall|i: int| 0 <= i < frames.len() implies {
            &&& (#[trigger] frames[i]).0 == sizes[i]
            &&& frames[i].1 == next_pts + samples_in(frames.take(i))
        } by {
            if i == 0 {
                assert(frames.take(0) =~= Seq::<(int, int)>::empty());
            } else {
                assert(frames[i] == rest[i - 1]);
                assert(sizes[i] == sizes.skip(1)[i - 1]);
                assert(frames.take(i) =~= first + rest.take(i - 1));
                lemma_samples_in_concat(first, rest.take(i - 1));
            }
        }
    }
}

/// What one call of the buffer does. Unless it is emptied, every frame is full,
/// there are as many as fit into what is there, and the rest of the division
/// stays. When it is emptied, everything goes out, and only the last frame may be
/// short.
pub proof fn feeding_cuts_whole_frames(
    frame_size: int,
    state: BufferState,
    incoming: int,
    flush: bool,
)
    requires
        frame_size > 0,
        state.buffered >= 0,
        incoming >= 0,
    ensures
        ({
            let there = state.buffered + incoming;
            let frames = fed_frames(frame_size, state, incoming, flush);
            let next = after_feed(frame_size, state, incoming, flush);
            &&& !flush ==> frames.len() == there / frame_size && next.buffered == there % frame_size
            &&& flush ==> next.buffered == 0
            &&& samples_in(frames) == there - next.buffered
            &&& next.sent == state.sent + samples_in(frames)
            &&& forall|i: int|
                0 <= i < frames.len() ==> {
                    &&& 0 < (#[trigger] frames[i]).0 <= frame_size
                    &&& (!flush || i < frames.len() - 1) ==> frames[i].0 == frame_size
                    &&& frames[i].1 == state.sent + samples_in(frames.take(i))
                }
        }),
{
    let there = state.buffered + incoming;
    let sizes = chunk_sizes(frame_size, there, flush);
    cutting_keeps_every_sample(frame_size, there, flush);
    lemma_frames_of(frame_size, state.sent, there, flush);
    if !flush {
        lemma_frame_count(frame_size, there);
    }
    let frames = fed_frames(frame_size, state, incoming, flush);
    assert forall|i: int| 0 <= i < frames.len() implies {
        &&& 0 < (#[trigger] frames[i]).0 <= frame_size
        &&& (!flush || i < frames.len() - 1) ==> frames[i].0 == frame_size
        &&& frames[i].1 == state.sent + samples_in(frames.take(i))
    } by {
        assert(frames[i].0 == sizes[i]);
    }
}

proof fn lemma_frame_count(frame_size: int, available: int)
    requires
        frame_size > 0,
        available >= 0,
    ensures
        chunk_sizes(frame_size, available, false).len() == available / frame_size,
    decreases available,
{
    if available >= frame_size {
        lemma_frame_count(frame_size, available - frame_size);
        vstd::arithmetic::div_mod::lemma_div_minus_one(available, frame_size);
    } else {
        vstd::arithmetic::div_mod::lemma_basic_div(available, frame_size);
    }
}

/// Over all calls, the timestamp of each frame is the number of samples that were
/// sent to the encoder before it, and what was put in is what was sent and what is
/// still there.
pub proof fn timestamps_count_the_samples(frame_size: int, calls: Seq<(nat, bool)>)
    requires
        frame_size > 0,
    ensures
        ({
            let (state, taken) = after_calls(frame_size, calls);
            &&& state.buffered >= 0
            &&& state.sent == samples_in(taken)
            &&& state.buffered + state.sent == samples_fed(calls)
            &&& forall|i: int|
                0 <= i < taken.len() ==> (#[trigger] taken[i]).1 == samples_in(taken.take(i))
        }),
    decreases calls.len(),
{
    if calls.len() > 0 {
        timestamps_count_the_samples(frame_size, calls.drop_last());
        let (state, before) = after_calls(frame_size, calls.drop_last());
        let (incoming, flush) = calls.last();
        let added = fed_frames(frame_size, state, incoming as int, flush);
        let taken = after_calls(frame_size, calls).1;
        feeding_cuts_whole_frames(frame_size, state, incoming as int, flush);
        if !flush {
            vstd::arithmetic::div_mod::lemma_mod_bound(
                state.buffered + incoming,
                frame_size,
            );
        }
        assert(taken == before + added);
        lemma_samples_in_concat(before, added);
        assert forall|i: int| 0 <= i < taken.len() implies (#[trigger] taken[i]).1 == samples_in(
            taken.take(i),
        ) by {
            if i < before.len() {
                assert(taken[i] == before[i]);
                assert(taken.take(i) =~= before.take(i));
            } else {
                let k = i - before.len();
                assert(taken[i] == added[k]);
                assert(taken.take(i) =~= before + added.take(k));
                lemma_samples_in_concat(before, added.take(k));
            }
        }
    }
}

/// The type of one sample.
#[derive(Clone, Copy, Debug, PartialEq, Eq, Structural)]
pub enum SampleType {
    Unknown,
    U8,
    I16,
    I32,
    I64,
    F32,
    F64,
}

/// How samples are stored: planar ones channel by channel, packed ones in turn.
#[derive(Clone, Copy, Debug, PartialEq, Eq, Structural)]
pub struct SampleFormat {
    pub sample: SampleType,
    pub planar: bool,
}

/// The shape of decoded audio; the layout is the set of its channels.
#[derive(Clone, Copy, Debug, PartialEq, Eq, Structural)]
pub struct AudioShape {
    pub format: SampleFormat,
    pub rate: u32,
    pub layout: u64,
}

/// How audio is re-encoded.
#[derive(Clone, Copy, Debug, PartialEq, Eq, Structural)]
pub struct AudioSetup {
    pub format: SampleFormat,
    pub rate: u32,
    pub layout: u64,
    pub bitrate: Option<u64>,
    /// Do samples have to be converted before they are encoded?
    pub resample: bool,
    /// Do the codec's headers go into the container's?
    pub global_header: bool,
}

/// Sets up the re-encoding of audio: rate and channels stay, and the format is the
/// first that the encoder takes, or packed 32-bit floats where it names none.
pub fn set_up_audio(
    input: AudioShape,
    first_format: Option<SampleFormat>,
    bitrate: Option<u64>,
    needs_global_header: bool,
) -> (r: AudioSetup)
    ensures
        r.format == match first_format {
            Some(format) => format,
            None => SampleFormat { sample: SampleType::F32, planar: false },
        },
        r.rate == input.rate,
        r.layout == input.layout,
        r.bitrate == bitrate,
        r.resample <==> input.format != r.format || input.layout != r.layout,
        r.global_header == needs_global_header,
{
    let format: SampleFormat = match first_format {
        Some(format) => format,
        None => SampleFormat { sample: SampleType::F32, planar: false },
    };
    let layout: u64 = input.layout;
    AudioSetup {
        format,
        rate: input.rate,
        layout,
        bitrate,
        resample: input.format != format || input.layout != layout,
        global_header: needs_global_header,
    }
}

/// Cutting loses no sample and makes none up: without a flush less than a frame
/// stays in the buffer and every frame is full; with a flush nothing stays and
/// only the last frame may be short.
pub proof fn cutting_keeps_every_sample(frame_size: int, available: int, flush: bool)
    requires
        frame_size > 0,
        available >= 0,
    ensures
        !flush ==> total(chunk_sizes(frame_size, available, flush)) == available - available
            % frame_size,
        flush ==> total(chunk_sizes(frame_size, available, flush)) == available,
        forall|i: int|
            0 <= i < chunk_sizes(frame_size, available, flush).len() ==> {
                &&& 0 < #[trigger] chunk_sizes(frame_size, available, flush)[i] <= frame_size
                &&& (!flush || i < chunk_sizes(frame_size, available, flush).len() - 1)
                    ==> chunk_sizes(frame_size, available, flush)[i] == frame_size
            },
    decreases available,
{
    let size = chunk_size(frame_size, available, flush);
    let sizes = chunk_sizes(frame_size, available, flush);
    if size > 0 {
        let rest = chunk_sizes(frame_size, available - size, flush);
        cutting_keeps_every_sample(frame_size, available - size, flush);
        assert(sizes =~= seq![size] + rest);
        assert(sizes.skip(1) =~= rest);
        if size == frame_size {
            assert((available - frame_size) % frame_size == available % frame_size) by {
                vstd::arithmetic::div_mod::lemma_mod_sub_multiples_vanish(available, frame_size);
            }
        } else {
            assert(available - size == 0);
        }
    } else if available < frame_size {
        vstd::arithmetic::div_mod::lemma_small_mod(available as nat, frame_size as nat);
    }
}

} // verus!
