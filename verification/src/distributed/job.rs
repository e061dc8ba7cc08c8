//! The jobs that machines share.
use vstd::prelude::*;

use super::clock;
use super::clock::Timestamp;
use crate::transcode::config::{
    AudioConfig, ChapterInfo, ContainerFormat, SubtitleConfig, VideoConfig,
};
use crate::transcode::TranscodeJob;
use crate::{list, text, transcode};

verus! {

#[derive(Clone, Copy, Debug, PartialEq, Eq, Structural)]
pub enum ContentType {
    Movie,
    Episode,
}

impl ContentType {
    /// The name in listings.
    pub open spec fn label_text(self) -> Seq<char> {
        match self {
            ContentType::Movie => "Movie"@,
            ContentType::Episode => "Episode"@,
        }
    }

    /// The name in listings.
    pub fn label(&self) -> (r: &'static str)
        ensures
            r@ == self.label_text(),
    {
        match self {
            ContentType::Movie => "Movie",
            ContentType::Episode => "Episode",
        }
    }
}

#[derive(Debug, Clone)]
pub struct DistributedJob {
    /// The 128 bits of a UUID.
    pub id: u128,
    pub version: u32,
    pub media_file: String,
    pub disc_volume_id: Option<String>,
    pub content_type: ContentType,
    pub relative_output_path: String,
    pub container: ContainerFormat,
    pub video: VideoConfig,
    pub audio_tracks: Vec<AudioConfig>,
    pub subtitle_tracks: Vec<SubtitleConfig>,
    pub chapters: Vec<ChapterInfo>,
    pub metadata: Vec<(String, String)>,
    pub attempt: u32,
    pub max_retries: u32,
    pub created_at: Timestamp,
    pub error_message: Option<String>,
}

/// What a `DistributedJob` says.
pub ghost struct DistributedJobModel {
    pub id: u128,
    pub version: u32,
    pub media_file: Seq<char>,
    pub disc_volume_id: Option<Seq<char>>,
    pub content_type: ContentType,
    pub relative_output_path: Seq<char>,
    pub container: ContainerFormat,
    pub video: transcode::config::VideoConfigModel,
    pub audio_tracks: Seq<transcode::config::AudioConfigModel>,
    pub subtitle_tracks: Seq<transcode::config::SubtitleConfigModel>,
    pub chapters: Seq<transcode::config::ChapterInfoModel>,
    pub metadata: Seq<(Seq<char>, Seq<char>)>,
    pub attempt: u32,
    pub max_retries: u32,
    pub created_at: Timestamp,
    pub error_message: Option<Seq<char>>,
}

impl DeepView for DistributedJob {
    type V = DistributedJobModel;

    open spec fn deep_view(&self) -> DistributedJobModel {
        DistributedJobModel {
            id: self.id,
            version: self.version,
            media_file: self.media_file@,
            disc_volume_id: self.disc_volume_id.deep_view(),
            content_type: self.content_type,
            relative_output_path: self.relative_output_path@,
            container: self.container,
            video: self.video.deep_view(),
            audio_tracks: self.audio_tracks.deep_view(),
            subtitle_tracks: self.subtitle_tracks.deep_view(),
            chapters: self.chapters.deep_view(),
            metadata: self.metadata.deep_view(),
            attempt: self.attempt,
            max_retries: self.max_retries,
            created_at: self.created_at,
            error_message: self.error_message.deep_view(),
        }
    }
}

impl DistributedJobModel {
    /// The transcode that a machine runs for the job, with the shared directory
    /// and the output directory where it has them.
    pub open spec fn local_job(
        self,
        shared_dir: Seq<char>,
        output_base: Seq<char>,
    ) -> transcode::TranscodeJobModel {
        transcode::TranscodeJobModel {
            input_path: text::joined(text::joined(shared_dir, "media"@), self.media_file),
            output_path: text::joined(output_base, self.relative_output_path),
            container: self.container,
            video: self.video,
            audio_tracks: self.audio_tracks,
            subtitle_tracks: self.subtitle_tracks,
            chapters: self.chapters,
            metadata: self.metadata,
        }
    }
}

impl DistributedJob {
    pub fn to_transcode_job(&self, shared_dir: &str, output_base: &str) -> (r: TranscodeJob)
        ensures
            r.deep_view() == self.deep_view().local_job(shared_dir@, output_base@),
    {
        let media_dir = text::join_path(shared_dir, "media");
        let input_path = text::join_path(media_dir.as_str(), self.media_file.as_str());
        let output_path = text::join_path(output_base, self.relative_output_path.as_str());

        let mut job = TranscodeJob::new(input_path.as_str(), output_path.as_str()).container(
            self.container,
        ).video(self.video.clone());
        let ghost model = self.deep_view();
        let ghost base = job.deep_view();

        let mut i: usize = 0;
        assert(base.audio_tracks =~= model.audio_tracks.take(0));
        while i < self.audio_tracks.len()
            invariant
                i <= self.audio_tracks.len(),
                model == self.deep_view(),
                job.deep_view() == (transcode::TranscodeJobModel {
                    audio_tracks: model.audio_tracks.take(i as int),
                    ..base
                }),
            decreases self.audio_tracks.len() - i,
        {
            assert(model.audio_tracks[i as int] == self.audio_tracks[i as int].deep_view());
            job = job.add_audio(self.audio_tracks[i].clone());
            assert(job.deep_view().audio_tracks =~= model.audio_tracks.take(i + 1));
            i = i + 1;
        }
        assert(model.audio_tracks.take(i as int) =~= model.audio_tracks);

        let mut j: usize = 0;
        assert(job.deep_view().subtitle_tracks =~= model.subtitle_tracks.take(0));
        while j < self.subtitle_tracks.len()
            invariant
                j <= self.subtitle_tracks.len(),
                model == self.deep_view(),
                job.deep_view() == (transcode::TranscodeJobModel {
                    audio_tracks: model.audio_tracks,
                    subtitle_tracks: model.subtitle_tracks.take(j as int),
                    ..base
                }),
            decreases self.subtitle_tracks.len() - j,
        {
            assert(model.subtitle_tracks[j as int] == self.subtitle_tracks[j as int].deep_view());
            job = job.add_subtitle(self.subtitle_tracks[j].clone());
            assert(job.deep_view().subtitle_tracks =~= model.subtitle_tracks.take(j + 1));
            j = j + 1;
        }
        assert(model.subtitle_tracks.take(j as int) =~= model.subtitle_tracks);

        job = job.chapters(self.copy_chapters());

        let mut k: usize = 0;
        assert(job.deep_view().metadata =~= model.metadata.take(0));
        while k < self.metadata.len()
            invariant
                k <= self.metadata.len(),
                model == self.deep_view(),
                job.deep_view() == (transcode::TranscodeJobModel {
                    audio_tracks: model.audio_tracks,
                    subtitle_tracks: model.subtitle_tracks,
                    chapters: model.chapters,
                    metadata: model.metadata.take(k as int),
                    ..base
                }),
            decreases self.metadata.len() - k,
        {
            assert(model.metadata[k as int] == self.metadata[k as int].deep_view());
            job = job.metadata(self.metadata[k].0.as_str(), self.metadata[k].1.as_str());
            assert(job.deep_view().metadata =~= model.metadata.take(k + 1));
            k = k + 1;
        }
        assert(model.metadata.take(k as int) =~= model.metadata);
        job
    }

    /// The job's identifier in its usual form.
    pub fn id_text(&self) -> (r: String)
        ensures
            r@ == id_form(self.id),
    {
        id_text(self.id)
    }

    fn copy_chapters(&self) -> (r: Vec<ChapterInfo>)
        ensures
            r.deep_view() == self.deep_view().chapters,
    {
        let ghost all = self.chapters.deep_view();
        let mut chapters: Vec<ChapterInfo> = list::empty();
        let mut i: usize = 0;
        while i < self.chapters.len()
            invariant
                i <= self.chapters.len(),
                all == self.chapters.deep_view(),
                chapters.deep_view() == all.take(i as int),
            decreases self.chapters.len() - i,
        {
            assert(all[i as int] == self.chapters[i as int].deep_view());
            list::push(&mut chapters, self.chapters[i].clone());
            assert(chapters.deep_view() =~= all.take(i + 1));
            i = i + 1;
        }
        assert(all.take(i as int) =~= all);
        chapters
    }
}

/// A sign of life of a worker.
#[derive(Debug, Clone)]
pub struct Heartbeat {
    pub worker_name: String,
    pub timestamp: Timestamp,
    pub pid: u32,
}

impl Heartbeat {
    /// A sign of life at this moment.
    pub fn beat(worker_name: &str, pid: u32) -> (r: Self)
        ensures
            r.worker_name@ == worker_name@,
            r.pid == pid,
            r.timestamp.valid(),
            r.timestamp.ordinary(),
            r.timestamp.secs >= 0,
    {
        Heartbeat { worker_name: worker_name.to_owned(), timestamp: clock::now(), pid }
    }
}

// --- identifiers ---

/// The 32 hexadecimal digits of an identifier.
pub open spec fn id_digits(id: u128) -> Seq<char> {
    text::padded(text::hexadecimal(id as nat), 32, '0')
}

/// An identifier in its usual form: the digits in groups of 8, 4, 4, 4 and 12,
/// with hyphens between them.
pub open spec fn id_form(id: u128) -> Seq<char> {
    let d = id_digits(id);
    d.subrange(0, 8) + seq!['-'] + d.subrange(8, 12) + seq!['-'] + d.subrange(12, 16) + seq!['-']
        + d.subrange(16, 20) + seq!['-'] + d.subrange(20, 32)
}

/// An identifier in its usual form: what uuid's `Display` writes of the `Uuid`
/// that `Uuid::from_u128` makes of the number.
#[verifier::external_body]
pub(crate) fn id_text(id: u128) -> (r: String)
    ensures
        r@ == id_form(id),
{
    uuid::Uuid::from_u128(id).to_string()
}

/// Is an identifier marked as a random one, with version 4 and its variant?
pub open spec fn is_random_id(id: u128) -> bool {
    (id as nat / 0x1000_0000_0000_0000_0000) % 16 == 4 && (id as nat / 0x4000_0000_0000_0000) % 4
        == 2
}

/// A random identifier from uuid's `Uuid::new_v4`. Chance picks all but the bits
/// that mark it as random: the version 4 and the variant.
#[verifier::external_body]
pub(crate) fn new_id() -> (r: u128)
    ensures
        is_random_id(r),
{
    uuid::Uuid::new_v4().as_u128()
}

proof fn lemma_hexadecimal_len(n: nat, k: nat)
    requires
        k > 0,
        n < vstd::arithmetic::power::pow(16, k),
    ensures
        0 < text::hexadecimal(n).len() <= k,
    decreases k,
{
    vstd::arithmetic::power::lemma_pow1(16);
    if n >= 16 {
        if k == 1 {
            assert(false);
        }
        assert(vstd::arithmetic::power::pow(16, k) == 16 * vstd::arithmetic::power::pow(
            16,
            (k - 1) as nat,
        )) by {
            reveal(vstd::arithmetic::power::pow);
        }
        assert(n / 16 < vstd::arithmetic::power::pow(16, (k - 1) as nat)) by (nonlinear_arith)
            requires
                n < 16 * vstd::arithmetic::power::pow(16, (k - 1) as nat),
        ;
        lemma_hexadecimal_len(n / 16, (k - 1) as nat);
    }
}

/// The number that some hexadecimal digits write.
pub open spec fn hex_value(s: Seq<char>) -> nat
    decreases s.len(),
{
    if s.len() == 0 {
        0
    } else {
        hex_value(s.drop_last()) * 16 + (if s.last() as nat >= 97 {
            s.last() as nat - 87
        } else {
            s.last() as nat - 48
        }) as nat
    }
}

proof fn lemma_hex_reads_back(n: nat)
    ensures
        hex_value(text::hexadecimal(n)) == n,
    decreases n,
{
    let s = text::hexadecimal(n);
    if n >= 16 {
        lemma_hex_reads_back(n / 16);
        assert(s.drop_last() =~= text::hexadecimal(n / 16));
    } else {
        assert(s.drop_last() =~= Seq::<char>::empty());
        assert(hex_value(s.drop_last()) == 0);
    }
}

proof fn lemma_leading_zeros(s: Seq<char>, k: nat)
    ensures
        hex_value(Seq::new(k, |i: int| '0') + s) == hex_value(s),
    decreases s.len(), k,
{
    let zeros = Seq::new(k, |i: int| '0');
    let whole = zeros + s;
    if s.len() > 0 {
        assert(whole.drop_last() =~= zeros + s.drop_last());
        lemma_leading_zeros(s.drop_last(), k);
    } else {
        assert(whole =~= zeros);
        if k > 0 {
            let fewer = Seq::new((k - 1) as nat, |i: int| '0');
            assert(zeros.drop_last() =~= fewer);
            lemma_leading_zeros(s, (k - 1) as nat);
            assert(fewer + s =~= fewer);
        } else {
            assert(whole =~= s);
        }
    }
}

/// An identifier has 32 digits.
pub proof fn id_digits_are_complete(id: u128)
    ensures
        id_digits(id).len() == 32,
        id_form(id).len() == 36,
{
    assert(vstd::arithmetic::power::pow(16, 32) == 0x1_0000_0000_0000_0000_0000_0000_0000_0000) by {
        reveal(vstd::arithmetic::power::pow);
        reveal_with_fuel(vstd::arithmetic::power::pow, 33);
    }
    lemma_hexadecimal_len(id as nat, 32);
}

/// Distinct identifiers look distinct.
pub proof fn ids_look_distinct(a: u128, b: u128)
    requires
        id_form(a) == id_form(b),
    ensures
        a == b,
{
    id_digits_are_complete(a);
    id_digits_are_complete(b);
    let x = id_digits(a);
    let y = id_digits(b);
    assert forall|i: int| 0 <= i < 32 implies x[i] == y[i] by {
        let at = if i < 8 {
            i
        } else if i < 12 {
            i + 1
        } else if i < 16 {
            i + 2
        } else if i < 20 {
            i + 3
        } else {
            i + 4
        };
        assert(id_form(a)[at] == x[i]);
        assert(id_form(b)[at] == y[i]);
    }
    assert(x =~= y);
    lemma_digits_value(a);
    lemma_digits_value(b);
}

proof fn lemma_digits_value(id: u128)
    ensures
        hex_value(id_digits(id)) == id,
{
    let h = text::hexadecimal(id as nat);
    lemma_hex_reads_back(id as nat);
    if h.len() < 32 {
        lemma_leading_zeros(h, (32 - h.len()) as nat);
        assert(id_digits(id) =~= Seq::new((32 - h.len()) as nat, |i: int| '0') + h);
    }
}

/// An identifier is written in 36 characters: its 32 digits with hyphens behind the
/// first eight, and behind the fourth of each of the next three groups of four.
pub proof fn ids_are_written_in_five_groups(id: u128, i: int)
    requires
        0 <= i < 36,
    ensures
        ({
            let form = id_form(id);
            let digits = text::padded(text::hexadecimal(id as nat), 32, '0');
            &&& form.len() == 36
            &&& i == 8 || i == 13 || i == 18 || i == 23 ==> form[i] == '-'
            &&& i < 8 ==> form[i] == digits[i]
            &&& 8 < i < 13 ==> form[i] == digits[i - 1]
            &&& 13 < i < 18 ==> form[i] == digits[i - 2]
            &&& 18 < i < 23 ==> form[i] == digits[i - 3]
            &&& 23 < i ==> form[i] == digits[i - 4]
        }),
{
    id_digits_are_complete(id);
}

} // verus!
