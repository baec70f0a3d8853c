//! The windows of features: how samples are framed, transformed and cut.
use super::config::{features_problem, validate_features, AudioConfigError, WhisperLogMelConfig};
use super::prepared::{PreparedAudioFeatureWindow, PreparedAudioFeatureWindowPlan};
use crate::parallel::{holds_non_finite, par_any_non_finite, par_fill_rows, RowSource};
use crate::tables::lemma_row_place;
use crate::text::Text;
use vstd::arithmetic::div_mod::{lemma_fundamental_div_mod, lemma_fundamental_div_mod_converse};
use vstd::arithmetic::power2::{lemma2_to64, lemma_pow2_pos, lemma_pow2_unfold, pow2};
use vstd::prelude::*;

verus! {

/// Why features cannot be made.
#[derive(Clone, Copy, Debug, PartialEq, Eq, Structural)]
pub enum FeatureError {
    Config(AudioConfigError),
    NoSamples,
    EmptyBuffer,
    NonFinite,
    FrameOverflow,
    LogMelOverflow,
    FilterOverflow,
    PaddedOverflow,
    WindowOverflow,
    OffsetOverflow,
    RangeOverflow,
    OutOfBuffer,
}

impl FeatureError {
    /// The message text of the error.
    pub open spec fn text(self) -> Seq<char> {
        match self {
            FeatureError::Config(error) => error.text(),
            FeatureError::NoSamples => "audio sample count is zero"@,
            FeatureError::EmptyBuffer => "audio sample buffer is empty"@,
            FeatureError::NonFinite => "audio sample buffer contains non-finite values"@,
            FeatureError::FrameOverflow => "audio feature frame count overflow"@,
            FeatureError::LogMelOverflow => "audio log-Mel element count overflow"@,
            FeatureError::FilterOverflow => "audio mel filter element count overflow"@,
            FeatureError::PaddedOverflow => "audio padded frame count overflow"@,
            FeatureError::WindowOverflow => "audio feature window size overflow"@,
            FeatureError::OffsetOverflow => "audio feature source offset overflow"@,
            FeatureError::RangeOverflow => "audio feature source range overflow"@,
            FeatureError::OutOfBuffer => "audio feature window exceeds the log-Mel buffer"@,
        }
    }

    /// The message text of the error.
    pub fn message(self) -> (message: String)
        ensures
            message@ == self.text(),
    {
        match self {
            FeatureError::Config(error) => error.message(),
            FeatureError::NoSamples => Text::start("audio sample count is zero").finish(),
            FeatureError::EmptyBuffer => Text::start("audio sample buffer is empty").finish(),
            FeatureError::NonFinite => Text::start(
                "audio sample buffer contains non-finite values",
            ).finish(),
            FeatureError::FrameOverflow => Text::start(
                "audio feature frame count overflow",
            ).finish(),
            FeatureError::LogMelOverflow => Text::start(
                "audio log-Mel element count overflow",
            ).finish(),
            FeatureError::FilterOverflow => Text::start(
                "audio mel filter element count overflow",
            ).finish(),
            FeatureError::PaddedOverflow => Text::start(
                "audio padded frame count overflow",
            ).finish(),
            FeatureError::WindowOverflow => Text::start(
                "audio feature window size overflow",
            ).finish(),
            FeatureError::OffsetOverflow => Text::start(
                "audio feature source offset overflow",
            ).finish(),
            FeatureError::RangeOverflow => Text::start(
                "audio feature source range overflow",
            ).finish(),
            FeatureError::OutOfBuffer => Text::start(
                "audio feature window exceeds the log-Mel buffer",
            ).finish(),
        }
    }
}

/// A number of things of one size that hold `n`.
pub open spec fn enough(n: int, size: int) -> int {
    (n + size - 1) / size
}

/// The frames of window `i`.
pub open spec fn valid_frames(frames: int, max: int, i: int) -> int {
    if frames - i * max < max {
        frames - i * max
    } else {
        max
    }
}

/// The first `k` windows of frames, or the first that cannot be padded to whole chunks.
pub open spec fn windows_outcome(frames: int, max: int, chunk: int, k: nat) -> Result<
    Seq<PreparedAudioFeatureWindowPlan>,
    FeatureError,
>
    decreases k,
{
    if k == 0 {
        Ok(Seq::empty())
    } else {
        match windows_outcome(frames, max, chunk, (k - 1) as nat) {
            Err(error) => Err(error),
            Ok(before) => {
                let valid = valid_frames(frames, max, k - 1);
                let padded = enough(valid, chunk) * chunk;
                if padded > usize::MAX {
                    Err(FeatureError::PaddedOverflow)
                } else {
                    Ok(
                        before.push(
                            PreparedAudioFeatureWindowPlan {
                                start_frame: ((k - 1) * max) as usize,
                                valid_frames: valid as usize,
                                padded_frames: padded as usize,
                            },
                        ),
                    )
                }
            },
        }
    }
}

proof fn lemma_first_bad_window(frames: int, max: int, chunk: int, k: nat, n: nat)
    requires
        k <= n,
        windows_outcome(frames, max, chunk, k) is Err,
    ensures
        windows_outcome(frames, max, chunk, n) == windows_outcome(frames, max, chunk, k),
    decreases n,
{
    if k < n {
        lemma_first_bad_window(frames, max, chunk, k, (n - 1) as nat);
    }
}

/// How many things of one size hold a number.
fn count_enough(n: usize, size: usize) -> (count: usize)
    requires
        size > 0,
    ensures
        count == enough(n as int, size as int),
{
    proof {
        lemma_fundamental_div_mod(n as int, size as int);
        let q = n as int / size as int;
        let r = n as int % size as int;
        assert(size * q == q * size && (q + 1) * size == q * size + size) by (nonlinear_arith);
        if r == 0 {
            lemma_fundamental_div_mod_converse(n + size - 1, size as int, q, size - 1);
        } else {
            lemma_fundamental_div_mod_converse(n + size - 1, size as int, q + 1, r - 1);
        }
        assert(r != 0 ==> q < n) by (nonlinear_arith)
            requires
                n == size * q + r,
                r >= 0,
                q >= 0,
                size >= 1,
        ;
    }
    let q: usize = n / size;
    if n % size == 0 {
        q
    } else {
        q + 1
    }
}

/// Cuts frames into windows, each padded to whole chunks.
pub fn plan_feature_windows(
    frame_count: usize,
    max_window_frames: usize,
    frame_chunk_size: usize,
) -> (result: Result<Vec<PreparedAudioFeatureWindowPlan>, FeatureError>)
    requires
        max_window_frames > 0,
        frame_chunk_size > 0,
    ensures
        ({
            let wanted = windows_outcome(
                frame_count as int,
                max_window_frames as int,
                frame_chunk_size as int,
                enough(frame_count as int, max_window_frames as int) as nat,
            );
            match result {
                Ok(windows) => wanted == Ok::<Seq<PreparedAudioFeatureWindowPlan>, FeatureError>(
                    windows@,
                ),
                Err(error) => wanted == Err::<Seq<PreparedAudioFeatureWindowPlan>, FeatureError>(
                    error,
                ),
            }
        }),
{
    let count: usize = count_enough(frame_count, max_window_frames);
    let mut windows: Vec<PreparedAudioFeatureWindowPlan> = Vec::new();
    let mut start: usize = 0;
    let mut i: usize = 0;
    proof {
        assert(0 * max_window_frames == 0);
        lemma_windows_hold(frame_count as int, max_window_frames as int);
    }
    while i < count
        invariant
            max_window_frames > 0,
            frame_chunk_size > 0,
            i <= count,
            count == enough(frame_count as int, max_window_frames as int),
            i < count ==> start == i * max_window_frames,
            (count - 1) * max_window_frames < frame_count || count == 0,
            windows_outcome(
                frame_count as int,
                max_window_frames as int,
                frame_chunk_size as int,
                i as nat,
            ) == Ok::<Seq<PreparedAudioFeatureWindowPlan>, FeatureError>(windows@),
        decreases count - i,
    {
        proof {
            assert(i * max_window_frames <= (count - 1) * max_window_frames) by (nonlinear_arith)
                requires
                    i <= count - 1,
                    max_window_frames >= 0,
            ;
            if windows_outcome(
                frame_count as int,
                max_window_frames as int,
                frame_chunk_size as int,
                (i + 1) as nat,
            ) is Err {
                lemma_first_bad_window(
                    frame_count as int,
                    max_window_frames as int,
                    frame_chunk_size as int,
                    (i + 1) as nat,
                    count as nat,
                );
            }
        }
        let rest: usize = frame_count - start;
        let valid: usize = if rest < max_window_frames {
            rest
        } else {
            max_window_frames
        };
        let padded: usize = match count_enough(valid, frame_chunk_size).checked_mul(
            frame_chunk_size,
        ) {
            Some(padded) => padded,
            None => return Err(FeatureError::PaddedOverflow),
        };
        windows.push(
            PreparedAudioFeatureWindowPlan {
                start_frame: start,
                valid_frames: valid,
                padded_frames: padded,
            },
        );
        proof {
            assert((i + 1) * max_window_frames == i * max_window_frames + max_window_frames)
                by (nonlinear_arith);
            if i + 1 < count {
                assert((i + 1) * max_window_frames <= (count - 1) * max_window_frames)
                    by (nonlinear_arith)
                    requires
                        i + 1 <= count - 1,
                        max_window_frames >= 0,
                ;
            }
        }
        start = if rest < max_window_frames {
            frame_count
        } else {
            start + max_window_frames
        };
        i = i + 1;
    }
    Ok(windows)
}

proof fn lemma_windows_hold(frames: int, max: int)
    requires
        frames >= 0,
        max > 0,
    ensures
        enough(frames, max) == 0 || (enough(frames, max) - 1) * max < frames,
        frames <= enough(frames, max) * max,
        enough(frames, max) >= 0,
{
    let top = frames + max - 1;
    lemma_fundamental_div_mod(top, max);
    let q = top / max;
    assert(q >= 0) by (nonlinear_arith)
        requires
            q == top / max,
            top >= 0,
            max > 0,
    ;
    assert((q - 1) * max == q * max - max && max * q == q * max) by (nonlinear_arith);
}

/// Windows follow each other and hold every frame once: window `i` begins where the frames of
/// those before it end, and the last one ends with the frames.
pub proof fn windows_hold_every_frame(frames: int, max: int, chunk: int, i: int)
    requires
        0 <= frames <= usize::MAX,
        0 < max <= usize::MAX,
        0 < chunk,
        0 <= i < enough(frames, max),
        windows_outcome(frames, max, chunk, enough(frames, max) as nat) is Ok,
    ensures
        ({
            let n = enough(frames, max);
            let windows = windows_outcome(frames, max, chunk, n as nat)->Ok_0;
            &&& windows.len() == n
            &&& windows[i].start_frame == i * max
            &&& 0 < windows[i].valid_frames <= windows[i].padded_frames
            &&& windows[i].padded_frames as int % chunk == 0
            &&& i + 1 < n ==> windows[i].start_frame + windows[i].valid_frames == (i + 1) * max
            &&& i + 1 == n ==> windows[i].start_frame + windows[i].valid_frames == frames
            &&& windows[i].padded_frames < windows[i].valid_frames + chunk
            &&& (n - 1) * max < frames <= n * max
        }),
{
    let n = enough(frames, max);
    lemma_windows_hold(frames, max);
    lemma_window_entries(frames, max, chunk, n as nat, i);
    assert(i * max <= (n - 1) * max) by (nonlinear_arith)
        requires
            i <= n - 1,
            max > 0,
    ;
    assert(0 <= i * max) by (nonlinear_arith)
        requires
            0 <= i,
            max > 0,
    ;
    assert((i + 1) * max == i * max + max) by (nonlinear_arith);
    if i + 1 < n {
        assert((i + 1) * max <= (n - 1) * max) by (nonlinear_arith)
            requires
                i + 1 <= n - 1,
                max > 0,
        ;
    }
    let valid = valid_frames(frames, max, i);
    lemma_windows_hold(valid, chunk);
    assert((enough(valid, chunk) - 1) * chunk == enough(valid, chunk) * chunk - chunk)
        by (nonlinear_arith);
    vstd::arithmetic::div_mod::lemma_mod_multiples_basic(enough(valid, chunk), chunk);
}

proof fn lemma_window_entries(frames: int, max: int, chunk: int, k: nat, i: int)
    requires
        windows_outcome(frames, max, chunk, k) is Ok,
        0 <= i < k,
    ensures
        ({
            let windows = windows_outcome(frames, max, chunk, k)->Ok_0;
            let valid = valid_frames(frames, max, i);
            &&& windows.len() == k
            &&& windows[i] == PreparedAudioFeatureWindowPlan {
                start_frame: (i * max) as usize,
                valid_frames: valid as usize,
                padded_frames: (enough(valid, chunk) * chunk) as usize,
            }
            &&& enough(valid, chunk) * chunk <= usize::MAX
        }),
    decreases k,
{
    if k == 1 {
        assert(windows_outcome(frames, max, chunk, 0) == Ok::<
            Seq<PreparedAudioFeatureWindowPlan>,
            FeatureError,
        >(Seq::empty()));
    } else {
        lemma_window_entries(
            frames,
            max,
            chunk,
            (k - 1) as nat,
            if i < k - 1 {
                i
            } else {
                0
            },
        );
    }
}

/// The number of frames of samples.
pub open spec fn frames_of(samples: int, hop: int) -> int {
    samples / hop + 1
}

/// The windows of features of a number of samples, or what is wrong.
pub open spec fn sample_windows(samples: usize, config: WhisperLogMelConfig) -> Result<
    Seq<PreparedAudioFeatureWindowPlan>,
    FeatureError,
> {
    let frames = frames_of(samples as int, config.hop_length as int);
    match features_problem(config) {
        Some(error) => Err(FeatureError::Config(error)),
        None => if samples == 0 {
            Err(FeatureError::NoSamples)
        } else if frames > usize::MAX {
            Err(FeatureError::FrameOverflow)
        } else {
            windows_outcome(
                frames,
                config.max_window_frames as int,
                config.frame_chunk_size as int,
                enough(frames, config.max_window_frames as int) as nat,
            )
        },
    }
}

/// Plans the windows of features of a number of samples.
pub fn plan_whisper_log_mel_windows(sample_count: usize, config: WhisperLogMelConfig) -> (result:
    Result<Vec<PreparedAudioFeatureWindowPlan>, FeatureError>)
    ensures
        match result {
            Ok(windows) => sample_windows(sample_count, config) == Ok::<
                Seq<PreparedAudioFeatureWindowPlan>,
                FeatureError,
            >(windows@),
            Err(error) => sample_windows(sample_count, config) == Err::<
                Seq<PreparedAudioFeatureWindowPlan>,
                FeatureError,
            >(error),
        },
{
    match validate_features(config) {
        Ok(_) => {},
        Err(error) => return Err(FeatureError::Config(error)),
    }
    if sample_count == 0 {
        return Err(FeatureError::NoSamples);
    }
    let frames: usize = match (sample_count / config.hop_length).checked_add(1) {
        Some(frames) => frames,
        None => return Err(FeatureError::FrameOverflow),
    };
    plan_feature_windows(frames, config.max_window_frames, config.frame_chunk_size)
}

/// Samples with their beginning and end mirrored: the sample at the edge itself is not repeated,
/// and what lies beyond the other end is filled.
pub open spec fn reflected<T>(samples: Seq<T>, pad: int, filler: T) -> Seq<T> {
    Seq::new(
        (samples.len() + 2 * pad) as nat,
        |i: int|
            if i < pad {
                if pad - i < samples.len() {
                    samples[pad - i]
                } else {
                    filler
                }
            } else if i < pad + samples.len() {
                samples[i - pad]
            } else if 2 * samples.len() + pad - 2 - i >= 0 {
                samples[2 * samples.len() + pad - 2 - i]
            } else {
                filler
            },
    )
}

/// Mirrors the beginning and the end of samples.
pub fn reflect_pad<T: Copy>(samples: &[T], pad: usize, filler: T) -> (padded: Vec<T>)
    requires
        samples@.len() + 2 * pad <= usize::MAX,
    ensures
        padded@ == reflected(samples@, pad as int, filler),
{
    let ghost target = reflected(samples@, pad as int, filler);
    let n: usize = samples.len();
    let mut padded: Vec<T> = Vec::new();
    let mut i: usize = 0;
    while i < pad
        invariant
            i <= pad,
            n == samples@.len(),
            n + 2 * pad <= usize::MAX,
            target == reflected(samples@, pad as int, filler),
            padded@ == target.take(i as int),
        decreases pad - i,
    {
        let source: usize = pad - i;
        if source < n {
            padded.push(samples[source]);
        } else {
            padded.push(filler);
        }
        assert(padded@ =~= target.take(i + 1));
        i = i + 1;
    }
    crate::values::append_range(&mut padded, samples, 0, n);
    assert(padded@ =~= target.take(pad + n));
    let mut k: usize = 0;
    while k < pad
        invariant
            k <= pad,
            n == samples@.len(),
            n + 2 * pad <= usize::MAX,
            target == reflected(samples@, pad as int, filler),
            padded@ == target.take(pad + n + k),
        decreases pad - k,
    {
        if n >= 2 && k <= n - 2 {
            padded.push(samples[n - 2 - k]);
        } else {
            padded.push(filler);
        }
        assert(padded@ =~= target.take(pad + n + k + 1));
        k = k + 1;
    }
    assert(padded@ =~= target);
    padded
}

/// The rows of a window: for each mel bin its frames, padded.
pub struct MelRows<'a, T> {
    pub frame_major: &'a Vec<T>,
    pub start_frame: usize,
    pub valid_frames: usize,
    pub padded_frames: usize,
    pub mel_bins: usize,
    pub filler: T,
}

impl<'a, T> MelRows<'a, T> {
    /// The value of a mel bin at a frame.
    pub open spec fn value(&self, mel: int, frame: int) -> T {
        if frame < self.valid_frames {
            self.frame_major@[(self.start_frame + frame) * self.mel_bins + mel]
        } else {
            self.filler
        }
    }

    /// The frames of the window are there.
    pub open spec fn wf(&self) -> bool {
        (self.start_frame + self.valid_frames) * self.mel_bins <= self.frame_major@.len()
    }
}

impl<'a, T: Copy + Sync> RowSource<T> for MelRows<'a, T> {
    open spec fn ready(&self, index: int, width: int) -> bool {
        self.wf() && width == self.padded_frames && 0 <= index < self.mel_bins
    }

    open spec fn row(&self, index: int) -> Seq<T> {
        Seq::new(self.padded_frames as nat, |frame: int| self.value(index, frame))
    }

    fn fill(&self, index: usize, row: &mut [T]) {
        let ghost n = self.padded_frames;
        let mut frame: usize = 0;
        assert(self.frame_major@.len() == self.frame_major.len());
        while frame < row.len()
            invariant
                self.wf(),
                self.frame_major@.len() <= usize::MAX,
                index < self.mel_bins,
                n == self.padded_frames,
                row@.len() == n,
                frame <= n,
                forall|j: int| 0 <= j < frame ==> #[trigger] row@[j] == self.value(index as int, j),
            decreases n - frame,
        {
            let value: T = if frame < self.valid_frames {
                proof {
                    let f = self.start_frame + frame;
                    lemma_row_place(
                        self.start_frame + self.valid_frames,
                        self.mel_bins as int,
                        f,
                        index as int,
                    );
                    assert(f <= f * self.mel_bins) by (nonlinear_arith)
                        requires
                            self.mel_bins >= 1,
                            f >= 0,
                    ;
                    assert(0 <= f * self.mel_bins) by (nonlinear_arith)
                        requires
                            f >= 0,
                    ;
                }
                self.frame_major[(self.start_frame + frame) * self.mel_bins + index]
            } else {
                self.filler
            };
            row[frame] = value;
            frame = frame + 1;
        }
        assert(row@ =~= self.row(index as int));
    }
}

/// What is wrong with cutting a window out of the buffer, if anything is.
pub open spec fn window_problem(
    buffer: int,
    mel_bins: usize,
    plan: PreparedAudioFeatureWindowPlan,
) -> Option<FeatureError> {
    if mel_bins * plan.padded_frames > usize::MAX {
        Some(FeatureError::WindowOverflow)
    } else if plan.start_frame * mel_bins > usize::MAX {
        Some(FeatureError::OffsetOverflow)
    } else if plan.start_frame * mel_bins + plan.valid_frames * mel_bins > usize::MAX {
        Some(FeatureError::RangeOverflow)
    } else if plan.start_frame * mel_bins + plan.valid_frames * mel_bins > buffer {
        Some(FeatureError::OutOfBuffer)
    } else {
        None
    }
}

/// The first of the first `k` windows that cannot be cut.
pub open spec fn windows_problem(
    buffer: int,
    mel_bins: usize,
    plans: Seq<PreparedAudioFeatureWindowPlan>,
    k: nat,
) -> Option<FeatureError>
    decreases k,
{
    if k == 0 {
        None
    } else {
        match windows_problem(buffer, mel_bins, plans, (k - 1) as nat) {
            Some(error) => Some(error),
            None => window_problem(buffer, mel_bins, plans[k - 1]),
        }
    }
}

proof fn lemma_first_uncut(
    buffer: int,
    mel_bins: usize,
    plans: Seq<PreparedAudioFeatureWindowPlan>,
    k: nat,
    n: nat,
)
    requires
        k <= n,
        windows_problem(buffer, mel_bins, plans, k) is Some,
    ensures
        windows_problem(buffer, mel_bins, plans, n) == windows_problem(
            buffer,
            mel_bins,
            plans,
            k,
        ),
    decreases n,
{
    if k < n {
        lemma_first_uncut(buffer, mel_bins, plans, k, (n - 1) as nat);
    }
}

/// Whether a window is the one of a plan: for each mel bin the frames of the plan, padded.
pub open spec fn cut_from<T>(
    window: PreparedAudioFeatureWindow<T>,
    frame_major: Seq<T>,
    mel_bins: usize,
    plan: PreparedAudioFeatureWindowPlan,
    filler: T,
) -> bool {
    &&& window.start_frame == plan.start_frame
    &&& window.valid_frames == plan.valid_frames
    &&& window.padded_frames == plan.padded_frames
    &&& window.mel_bins == mel_bins
    &&& window.data_mel_major@.len() == mel_bins * plan.padded_frames
    &&& forall|mel: int, frame: int|
        0 <= mel < mel_bins && 0 <= frame < plan.padded_frames ==> #[trigger] place_value(
            window.data_mel_major@,
            mel,
            frame,
            plan.padded_frames as int,
        ) == if frame < plan.valid_frames {
            frame_major[(plan.start_frame + frame) * mel_bins + mel]
        } else {
            filler
        }
}

/// The value at a row and column of a table.
pub open spec fn place_value<T>(table: Seq<T>, row: int, column: int, width: int) -> T {
    table[row * width + column]
}

fn cut_window<T: Copy + Send + Sync>(
    frame_major: &Vec<T>,
    mel_bins: usize,
    plan: PreparedAudioFeatureWindowPlan,
    filler: T,
) -> (result: Result<PreparedAudioFeatureWindow<T>, FeatureError>)
    requires
        plan.padded_frames > 0,
    ensures
        match result {
            Ok(window) => window_problem(frame_major@.len() as int, mel_bins, plan) is None
                && cut_from(window, frame_major@, mel_bins, plan, filler),
            Err(error) => window_problem(frame_major@.len() as int, mel_bins, plan) == Some(error),
        },
{
    let len: usize = match mel_bins.checked_mul(plan.padded_frames) {
        Some(n) => n,
        None => return Err(FeatureError::WindowOverflow),
    };
    let base: usize = match plan.start_frame.checked_mul(mel_bins) {
        Some(n) => n,
        None => return Err(FeatureError::OffsetOverflow),
    };
    let span: usize = match plan.valid_frames.checked_mul(mel_bins) {
        Some(n) => n,
        None => {
            assert(plan.start_frame * mel_bins >= 0) by (nonlinear_arith);
            return Err(FeatureError::RangeOverflow);
        },
    };
    let end: usize = match base.checked_add(span) {
        Some(n) => n,
        None => return Err(FeatureError::RangeOverflow),
    };
    if end > frame_major.len() {
        return Err(FeatureError::OutOfBuffer);
    }
    let source = MelRows {
        frame_major,
        start_frame: plan.start_frame,
        valid_frames: plan.valid_frames,
        padded_frames: plan.padded_frames,
        mel_bins,
        filler,
    };
    let mut data: Vec<T> = crate::values::filled(len, filler);
    proof {
        assert((plan.start_frame + plan.valid_frames) * mel_bins == plan.start_frame * mel_bins
            + plan.valid_frames * mel_bins) by (nonlinear_arith);
        lemma_fundamental_div_mod_converse(
            len as int,
            plan.padded_frames as int,
            mel_bins as int,
            0,
        );
    }
    par_fill_rows(&mut data, plan.padded_frames, &source);
    proof {
        assert forall|mel: int, frame: int|
            0 <= mel < mel_bins && 0 <= frame < plan.padded_frames implies #[trigger] place_value(
            data@,
            mel,
            frame,
            plan.padded_frames as int,
        ) == if frame < plan.valid_frames {
            frame_major@[(plan.start_frame + frame) * mel_bins + mel]
        } else {
            filler
        } by {
            assert(source.row(mel)[frame] == source.value(mel, frame));
        }
    }
    Ok(
        PreparedAudioFeatureWindow {
            start_frame: plan.start_frame,
            valid_frames: plan.valid_frames,
            padded_frames: plan.padded_frames,
            mel_bins,
            data_mel_major: data,
        },
    )
}

/// Cuts features, frame by frame, into windows of rows of mel bins.
pub fn split_feature_windows<T: Copy + Send + Sync>(
    frame_major: &Vec<T>,
    mel_bins: usize,
    frame_count: usize,
    max_window_frames: usize,
    frame_chunk_size: usize,
    filler: T,
) -> (result: Result<Vec<PreparedAudioFeatureWindow<T>>, FeatureError>)
    requires
        max_window_frames > 0,
        frame_chunk_size > 0,
    ensures
        match windows_outcome(
            frame_count as int,
            max_window_frames as int,
            frame_chunk_size as int,
            enough(frame_count as int, max_window_frames as int) as nat,
        ) {
            Err(error) => result == Err::<Vec<PreparedAudioFeatureWindow<T>>, FeatureError>(error),
            Ok(plans) => match result {
                Ok(windows) => {
                    &&& windows_problem(
                        frame_major@.len() as int,
                        mel_bins,
                        plans,
                        plans.len(),
                    ) is None
                    &&& windows@.len() == plans.len()
                    &&& forall|i: int|
                        0 <= i < plans.len() ==> cut_from(
                            #[trigger] windows@[i],
                            frame_major@,
                            mel_bins,
                            plans[i],
                            filler,
                        )
                },
                Err(error) => windows_problem(
                    frame_major@.len() as int,
                    mel_bins,
                    plans,
                    plans.len(),
                ) == Some(error),
            },
        },
{
    let plans = match plan_feature_windows(frame_count, max_window_frames, frame_chunk_size) {
        Ok(plans) => plans,
        Err(error) => return Err(error),
    };
    let mut windows: Vec<PreparedAudioFeatureWindow<T>> = Vec::new();
    let mut k: usize = 0;
    let ghost n = enough(frame_count as int, max_window_frames as int);
    proof {
        lemma_windows_hold(frame_count as int, max_window_frames as int);
        assert forall|i: int| 0 <= i < plans@.len() implies (#[trigger] plans@[i]).padded_frames
            > 0 by {
            if n > 0 {
                windows_hold_every_frame(
                    frame_count as int,
                    max_window_frames as int,
                    frame_chunk_size as int,
                    0,
                );
                windows_hold_every_frame(
                    frame_count as int,
                    max_window_frames as int,
                    frame_chunk_size as int,
                    i,
                );
            }
        }
    }
    while k < plans.len()
        invariant
            k <= plans@.len(),
            k == windows@.len(),
            windows_outcome(
                frame_count as int,
                max_window_frames as int,
                frame_chunk_size as int,
                enough(frame_count as int, max_window_frames as int) as nat,
            ) == Ok::<Seq<PreparedAudioFeatureWindowPlan>, FeatureError>(plans@),
            forall|i: int| 0 <= i < plans@.len() ==> (#[trigger] plans@[i]).padded_frames > 0,
            windows_problem(frame_major@.len() as int, mel_bins, plans@, k as nat) is None,
            forall|i: int|
                0 <= i < k ==> cut_from(
                    #[trigger] windows@[i],
                    frame_major@,
                    mel_bins,
                    plans@[i],
                    filler,
                ),
        decreases plans.len() - k,
    {
        match cut_window(frame_major, mel_bins, plans[k], filler) {
            Ok(window) => windows.push(window),
            Err(error) => {
                proof {
                    lemma_first_uncut(
                        frame_major@.len() as int,
                        mel_bins,
                        plans@,
                        (k + 1) as nat,
                        plans@.len(),
                    );
                }
                return Err(error);
            },
        }
        k = k + 1;
    }
    Ok(windows)
}

/// No frame is lost and none is moved when features are cut: the value of every mel bin at every
/// frame stands in the row of its bin in the window that the frame falls into, as far behind the
/// start of the window as the frame is.
pub proof fn every_frame_is_in_its_window<T>(
    windows: Seq<PreparedAudioFeatureWindow<T>>,
    frame_major: Seq<T>,
    mel_bins: usize,
    frames: usize,
    max: usize,
    chunk: usize,
    filler: T,
    f: int,
    m: int,
)
    requires
        max > 0,
        chunk > 0,
        windows_outcome(
            frames as int,
            max as int,
            chunk as int,
            enough(frames as int, max as int) as nat,
        ) matches Ok(plans) && windows.len() == plans.len() && forall|i: int|
            0 <= i < plans.len() ==> cut_from(
                #[trigger] windows[i],
                frame_major,
                mel_bins,
                plans[i],
                filler,
            ),
        0 <= f < frames,
        0 <= m < mel_bins,
    ensures
        ({
            let i = f / max as int;
            let within = f % max as int;
            &&& 0 <= i < windows.len()
            &&& within < windows[i].valid_frames
            &&& windows[i].start_frame == i * max
            &&& windows[i].data_mel_major@[m * windows[i].padded_frames + within]
                == frame_major[f * mel_bins + m]
        }),
{
    let i = f / max as int;
    let within = f % max as int;
    let n = enough(frames as int, max as int);
    let plans = windows_outcome(frames as int, max as int, chunk as int, n as nat)->Ok_0;
    lemma_windows_hold(frames as int, max as int);
    lemma_fundamental_div_mod(f, max as int);
    assert(max * i == i * max) by (nonlinear_arith);
    assert(0 <= i < n) by (nonlinear_arith)
        requires
            0 <= f < frames,
            frames <= n * max,
            f == i * max + within,
            0 <= within < max,
            max > 0,
    ;
    windows_hold_every_frame(frames as int, max as int, chunk as int, i);
    assert((i + 1) * max == i * max + max) by (nonlinear_arith);
    let window = windows[i];
    assert(cut_from(window, frame_major, mel_bins, plans[i], filler));
    assert(place_value(window.data_mel_major@, m, within, plans[i].padded_frames as int)
        == frame_major[(plans[i].start_frame + within) * mel_bins + m]);
}

/// Mirroring keeps the samples and repeats them backwards at both ends: sample `k` stands behind
/// the padding, and as far before the first sample as behind it, and what is as far before the
/// last sample stands as far behind it.
pub proof fn mirrored_samples_surround_the_samples<T>(samples: Seq<T>, pad: int, filler: T, k: int)
    requires
        0 <= pad,
        0 <= k < samples.len(),
    ensures
        reflected(samples, pad, filler).len() == samples.len() + 2 * pad,
        reflected(samples, pad, filler)[pad + k] == samples[k],
        k <= pad ==> reflected(samples, pad, filler)[pad - k] == samples[k],
        samples.len() - 1 - k <= pad ==> reflected(samples, pad, filler)[pad + 2 * (samples.len()
            - 1) - k] == samples[k],
{
}

/// The sizes that the making of features works with.
#[derive(Clone, Copy, Debug, PartialEq, Eq, Structural)]
pub struct ExtractionPlan {
    pub pad: usize,
    pub frame_count: usize,
    pub element_count: usize,
    pub window_offset: usize,
    pub fft_bins: usize,
    pub filter_count: usize,
}

/// What is wrong with making features of samples, if anything is.
pub open spec fn extraction_problem(samples: Seq<u32>, config: WhisperLogMelConfig) -> Option<
    FeatureError,
> {
    let frames = frames_of(samples.len() as int, config.hop_length as int);
    match features_problem(config) {
        Some(error) => Some(FeatureError::Config(error)),
        None => if samples.len() == 0 {
            Some(FeatureError::EmptyBuffer)
        } else if holds_non_finite(samples) {
            Some(FeatureError::NonFinite)
        } else if config.mel_bins * frames > usize::MAX {
            Some(FeatureError::LogMelOverflow)
        } else if config.mel_bins * (config.fft_length as int / 2 + 1) > usize::MAX {
            Some(FeatureError::FilterOverflow)
        } else {
            None
        },
    }
}

/// Checks samples and sizes the making of their features.
pub fn plan_extraction(samples: &[u32], config: WhisperLogMelConfig) -> (result: Result<
    ExtractionPlan,
    FeatureError,
>)
    requires
        features_problem(config) is None ==> samples@.len() + config.fft_length <= usize::MAX,
    ensures
        match result {
            Ok(plan) => {
                &&& extraction_problem(samples@, config) is None
                &&& plan.pad == config.fft_length as int / 2
                &&& plan.frame_count == frames_of(
                    samples@.len() as int,
                    config.hop_length as int,
                )
                &&& plan.element_count == config.mel_bins * plan.frame_count
                &&& plan.window_offset == (config.fft_length - config.window_length) / 2
                &&& plan.fft_bins == config.fft_length as int / 2 + 1
                &&& plan.filter_count == config.mel_bins * plan.fft_bins
            },
            Err(error) => extraction_problem(samples@, config) == Some(error),
        },
{
    match validate_features(config) {
        Ok(_) => {},
        Err(error) => return Err(FeatureError::Config(error)),
    }
    if samples.len() == 0 {
        return Err(FeatureError::EmptyBuffer);
    }
    if par_any_non_finite(samples) {
        return Err(FeatureError::NonFinite);
    }
    let pad: usize = config.fft_length / 2;
    let padded_len: usize = samples.len() + 2 * pad;
    let frame_count: usize = {
        let room: usize = padded_len - config.fft_length;
        proof {
            let hop = config.hop_length as int;
            let q = room as int / hop;
            lemma_fundamental_div_mod(room as int, hop);
            assert(q <= room) by (nonlinear_arith)
                requires
                    room == hop * q + room as int % hop,
                    room as int % hop >= 0,
                    hop >= 1,
                    q >= 0 || room >= 0,
            ;
        }
        room / config.hop_length + 1
    };
    let element_count: usize = match config.mel_bins.checked_mul(frame_count) {
        Some(n) => n,
        None => return Err(FeatureError::LogMelOverflow),
    };
    let fft_bins: usize = config.fft_length / 2 + 1;
    let filter_count: usize = match config.mel_bins.checked_mul(fft_bins) {
        Some(n) => n,
        None => return Err(FeatureError::FilterOverflow),
    };
    Ok(
        ExtractionPlan {
            pad,
            frame_count,
            element_count,
            window_offset: (config.fft_length - config.window_length) / 2,
            fft_bins,
            filter_count,
        },
    )
}

/// The windows that are planned for a number of samples are those that the frames of the padded
/// samples are cut into: padding and framing give one frame for each hop, and one more.
pub proof fn planned_windows_match_extraction(samples: int, fft_length: int, hop: int)
    requires
        fft_length % 2 == 0,
        fft_length >= 0,
        samples >= 0,
        hop > 0,
    ensures
        (samples + 2 * (fft_length / 2) - fft_length) / hop + 1 == frames_of(samples, hop),
{
    assert(2 * (fft_length / 2) == fft_length);
}

/// The bins that a mel filter contributes to: whole groups of four, then the rest one by one.
#[derive(Clone, Copy, Debug, PartialEq, Eq, Structural)]
pub struct MelFilterSpan {
    pub group_start: usize,
    pub group_end: usize,
    pub tail_start: usize,
    pub tail_end: usize,
}

/// Whether a weight is not zero.
pub open spec fn weighs(bits: u32) -> bool {
    bits % 0x8000_0000 != 0
}

/// Whether a place of a filter is in its span: in one of the groups or in the tail.
pub open spec fn in_span(span: MelFilterSpan, bin: int, fft_bins: int) -> bool {
    if bin < fft_bins / 4 * 4 {
        span.group_start <= bin / 4 < span.group_end
    } else {
        span.tail_start <= bin < span.tail_end
    }
}

/// The span of a filter whose first and last weights are at the given places.
pub open spec fn span_of(first: int, last: int, fft_bins: int) -> MelFilterSpan {
    let groups = fft_bins / 4;
    let tail = groups * 4;
    MelFilterSpan {
        group_start: (if first / 4 < groups {
            first / 4
        } else {
            groups
        }) as usize,
        group_end: (if last / 4 + 1 < groups {
            last / 4 + 1
        } else {
            groups
        }) as usize,
        tail_start: (if first > tail {
            first
        } else {
            tail
        }) as usize,
        tail_end: (if last + 1 > tail {
            if last + 1 > first {
                last + 1
            } else {
                first
            }
        } else {
            tail
        }) as usize,
    }
}

/// The span of a filter.
pub fn mel_filter_span(row: &[u32]) -> (span: MelFilterSpan)
    ensures
        ({
            let n = row@.len() as int;
            (forall|i: int| 0 <= i < n ==> !weighs(#[trigger] row@[i])) ==> span == MelFilterSpan {
                group_start: 0,
                group_end: 0,
                tail_start: 0,
                tail_end: 0,
            }
        }),
        forall|first: int, last: int|
            first_and_last(row@, first, last) ==> span == #[trigger] span_of(
                first,
                last,
                row@.len() as int,
            ),
        forall|bin: int|
            0 <= bin < row@.len() && weighs(#[trigger] row@[bin]) ==> in_span(
                span,
                bin,
                row@.len() as int,
            ),
{
    let n: usize = row.len();
    let mut first: usize = 0;
    while first < n && row[first] % 0x8000_0000 == 0
        invariant
            n == row@.len(),
            first <= n,
            forall|i: int| 0 <= i < first ==> !weighs(#[trigger] row@[i]),
        decreases n - first,
    {
        first = first + 1;
    }
    if first == n {
        assert forall|a: int, b: int| first_and_last(row@, a, b) implies false by {
            assert(weighs(row@[a]));
        }
        return MelFilterSpan { group_start: 0, group_end: 0, tail_start: 0, tail_end: 0 };
    }
    let mut last: usize = n - 1;
    while row[last] % 0x8000_0000 == 0
        invariant
            n == row@.len(),
            first <= last < n,
            weighs(row@[first as int]),
            forall|i: int| last < i < n ==> !weighs(#[trigger] row@[i]),
        decreases last,
    {
        last = last - 1;
    }
    let groups: usize = n / 4;
    let tail: usize = groups * 4;
    let group_start: usize = if first / 4 < groups {
        first / 4
    } else {
        groups
    };
    let group_end: usize = if last / 4 < groups {
        last / 4 + 1
    } else {
        groups
    };
    let tail_start: usize = if first > tail {
        first
    } else {
        tail
    };
    let tail_end: usize = if last >= tail {
        last + 1
    } else {
        tail
    };
    let span = MelFilterSpan { group_start, group_end, tail_start, tail_end };
    proof {
        assert(span == span_of(first as int, last as int, n as int));
        assert forall|a: int, b: int| first_and_last(row@, a, b) implies span
            == #[trigger] span_of(a, b, n as int) by {
            assert(weighs(row@[a]) && weighs(row@[b]));
            assert(a == first && b == last);
        }
    }
    span
}

/// Whether a filter has its first weight and its last weight at the given places.
pub open spec fn first_and_last(row: Seq<u32>, first: int, last: int) -> bool {
    &&& 0 <= first <= last < row.len()
    &&& weighs(row[first])
    &&& weighs(row[last])
    &&& forall|i: int| 0 <= i < first ==> !weighs(#[trigger] row[i])
    &&& forall|i: int| last < i < row.len() ==> !weighs(#[trigger] row[i])
}

/// How a transform of a length is split: into blocks of odd length, combined level by level.
#[derive(Debug)]
pub struct FftLayout {
    pub leaf_length: usize,
    pub levels: usize,
    pub leaf_count: usize,
    /// The first input of each block.
    pub leaf_offsets: Vec<usize>,
}

/// The lowest `levels` bits of a number in reverse order.
pub open spec fn reversed_bits(j: int, levels: nat) -> int
    decreases levels,
{
    if levels == 0 {
        0
    } else {
        (j % 2) * pow2((levels - 1) as nat) + reversed_bits(j / 2, (levels - 1) as nat)
    }
}

proof fn lemma_reversed_range(j: int, levels: nat)
    requires
        j >= 0,
    ensures
        0 <= reversed_bits(j, levels) < pow2(levels),
    decreases levels,
{
    lemma_pow2_pos(levels);
    if levels > 0 {
        lemma_reversed_range(j / 2, (levels - 1) as nat);
        lemma_pow2_unfold(levels);
        let h = pow2((levels - 1) as nat) as int;
        assert((j % 2) * h <= h && (j % 2) * h >= 0) by (nonlinear_arith)
            requires
                0 <= j % 2 <= 1,
                h >= 0,
        ;
    }
}

fn reverse_bits(j: usize, levels: usize, half: usize) -> (r: usize)
    requires
        levels > 0 ==> half == pow2((levels - 1) as nat),
        pow2(levels as nat) <= usize::MAX,
    ensures
        r == reversed_bits(j as int, levels as nat),
        r < pow2(levels as nat),
    decreases levels,
{
    proof {
        lemma_reversed_range(j as int, levels as nat);
    }
    if levels == 0 {
        return 0;
    }
    proof {
        lemma_pow2_unfold(levels as nat);
        if levels > 1 {
            lemma_pow2_unfold((levels - 1) as nat);
        }
        lemma_pow2_pos((levels - 1) as nat);
        assert((j as int % 2) * half <= half) by (nonlinear_arith)
            requires
                0 <= j as int % 2 <= 1,
                half >= 0,
        ;
    }
    let rest: usize = reverse_bits(j / 2, levels - 1, half / 2);
    let bit: usize = if j % 2 == 1 {
        half
    } else {
        0
    };
    assert(bit == (j as int % 2) * half) by (nonlinear_arith)
        requires
            bit == if j as int % 2 == 1 {
                half
            } else {
                0
            },
            0 <= j as int % 2 <= 1,
    ;
    bit + rest
}

/// Splits a transform of a length.
pub fn fft_layout(length: usize) -> (layout: FftLayout)
    requires
        0 < length <= 4096,
    ensures
        layout.leaf_length as int % 2 == 1,
        layout.leaf_count == pow2(layout.levels as nat),
        layout.leaf_length * layout.leaf_count == length,
        layout.leaf_offsets@.len() == layout.leaf_count,
        forall|j: int|
            0 <= j < layout.leaf_count ==> #[trigger] layout.leaf_offsets@[j] == reversed_bits(
                j,
                layout.levels as nat,
            ) && layout.leaf_offsets@[j] < layout.leaf_count,
{
    let mut leaf_length: usize = length;
    let mut levels: usize = 0;
    let mut leaf_count: usize = 1;
    proof {
        lemma2_to64();
    }
    while leaf_length % 2 == 0 && leaf_length > 1
        invariant
            0 < leaf_length,
            length <= 4096,
            levels <= 4096 - leaf_length,
            leaf_count == pow2(levels as nat),
            leaf_length * leaf_count == length,
            0 < leaf_count <= 4096,
        decreases leaf_length,
    {
        let ghost l = leaf_length as int;
        let ghost c = leaf_count as int;
        proof {
            lemma_pow2_unfold((levels + 1) as nat);
            assert((l / 2) * (c * 2) == l * c) by (nonlinear_arith)
                requires
                    l % 2 == 0,
            ;
            assert(c * 2 <= (l / 2) * (c * 2)) by (nonlinear_arith)
                requires
                    l / 2 >= 1,
                    c >= 0,
            ;
        }
        leaf_length = leaf_length / 2;
        leaf_count = leaf_count * 2;
        levels = levels + 1;
    }
    assert(leaf_length as int % 2 == 1);
    let mut leaf_offsets: Vec<usize> = Vec::new();
    let mut j: usize = 0;
    while j < leaf_count
        invariant
            j == leaf_offsets@.len(),
            j <= leaf_count <= 4096,
            leaf_count == pow2(levels as nat),
            forall|i: int|
                0 <= i < j ==> #[trigger] leaf_offsets@[i] == reversed_bits(i, levels as nat)
                    && leaf_offsets@[i] < leaf_count,
        decreases leaf_count - j,
    {
        proof {
            if levels > 0 {
                lemma_pow2_unfold(levels as nat);
            }
        }
        leaf_offsets.push(reverse_bits(j, levels, leaf_count / 2));
        j = j + 1;
    }
    FftLayout { leaf_length, levels, leaf_count, leaf_offsets }
}

/// No two blocks begin with the same input: reversing bits keeps numbers apart.
pub proof fn blocks_begin_with_different_inputs(i: int, j: int, levels: nat)
    requires
        0 <= i < pow2(levels),
        0 <= j < pow2(levels),
        reversed_bits(i, levels) == reversed_bits(j, levels),
    ensures
        i == j,
    decreases levels,
{
    if levels == 0 {
        lemma2_to64();
    } else {
        let l = (levels - 1) as nat;
        lemma_pow2_unfold(levels);
        lemma_reversed_range(i / 2, l);
        lemma_reversed_range(j / 2, l);
        let h = pow2(l) as int;
        let a = reversed_bits(i / 2, l);
        let b = reversed_bits(j / 2, l);
        assert(i % 2 == j % 2 && a == b) by (nonlinear_arith)
            requires
                (i % 2) * h + a == (j % 2) * h + b,
                0 <= a < h,
                0 <= b < h,
                0 <= i % 2 <= 1,
                0 <= j % 2 <= 1,
        ;
        blocks_begin_with_different_inputs(i / 2, j / 2, l);
    }
}

/// Blocks are combined in pairs that begin as far apart as the level says: numbers that differ in
/// one bit only have blocks that begin apart by the bit at the mirrored place. The first block
/// begins with the first input.
pub proof fn paired_blocks_begin_mirrored(j: int, bit: nat, levels: nat)
    requires
        0 <= j,
        bit < levels,
        (j / pow2(bit) as int) % 2 == 0,
    ensures
        reversed_bits(0, levels) == 0,
        reversed_bits(j + pow2(bit), levels) == reversed_bits(j, levels) + pow2(
            (levels - 1 - bit) as nat,
        ),
    decreases levels,
{
    let l = (levels - 1) as nat;
    lemma_reversed_zero(levels);
    if bit == 0 {
        lemma2_to64();
        assert(j / 1 == j);
        assert((j + 1) % 2 == 1 && (j + 1) / 2 == j / 2);
        assert((j % 2) * pow2(l) == 0) by (nonlinear_arith)
            requires
                j % 2 == 0,
        ;
        assert(((j + 1) % 2) * pow2(l) == pow2(l)) by (nonlinear_arith)
            requires
                (j + 1) % 2 == 1,
        ;
    } else {
        let b = (bit - 1) as nat;
        lemma_pow2_unfold(bit);
        lemma_pow2_pos(b);
        let p = pow2(b) as int;
        assert(pow2(bit) == 2 * p);
        vstd::arithmetic::div_mod::lemma_div_denominator(j, 2, p);
        assert((j / 2) / p == j / pow2(bit) as int);
        assert((j + 2 * p) % 2 == j % 2);
        assert((j + 2 * p) / 2 == j / 2 + p);
        paired_blocks_begin_mirrored(j / 2, b, l);
        assert((l - 1 - b) == levels - 1 - bit);
    }
}

proof fn lemma_reversed_zero(levels: nat)
    ensures
        reversed_bits(0, levels) == 0,
    decreases levels,
{
    if levels > 0 {
        lemma_reversed_zero((levels - 1) as nat);
        assert(0int * pow2((levels - 1) as nat) == 0) by (nonlinear_arith);
        assert(0int % 2 == 0 && 0int / 2 == 0);
    }
}

/// The place of a twiddle factor of a block in the table of the whole transform.
pub fn leaf_table_index(frequency: usize, sample: usize, leaf_length: usize, length: usize) -> (
    index: usize)
    requires
        0 < leaf_length <= length <= 4096,
        frequency < leaf_length,
        sample < leaf_length,
    ensures
        index == ((frequency * sample) % leaf_length as int) * (length as int
            / leaf_length as int),
        index < length,
{
    proof {
        assert(0 <= frequency * sample <= 4096 * 4096) by (nonlinear_arith)
            requires
                0 <= frequency < 4096,
                0 <= sample < 4096,
        ;
        let r = (frequency * sample) % leaf_length as int;
        let step = length as int / leaf_length as int;
        lemma_fundamental_div_mod(length as int, leaf_length as int);
        assert(step >= 1) by (nonlinear_arith)
            requires
                length == leaf_length * step + length as int % leaf_length as int,
                (length as int % leaf_length as int) < leaf_length,
                leaf_length <= length,
                leaf_length > 0,
        ;
        assert(0 <= r * step && r * step < leaf_length * step) by (nonlinear_arith)
            requires
                0 <= r < leaf_length,
                step >= 1,
        ;
    }
    frequency * sample % leaf_length * (length / leaf_length)
}

/// Features are made exactly of samples that are finite, at least one, under an accepted
/// configuration, where the table of features and that of the filters can be counted.
pub proof fn finite_samples_are_accepted(samples: Seq<u32>, config: WhisperLogMelConfig)
    ensures
        extraction_problem(samples, config) is None <==> {
            &&& features_problem(config) is None
            &&& samples.len() > 0
            &&& forall|i: int|
                0 <= i < samples.len() ==> (#[trigger] samples[i]) % 0x8000_0000 < 0x7f80_0000
            &&& config.mel_bins * frames_of(samples.len() as int, config.hop_length as int)
                <= usize::MAX
            &&& config.mel_bins * (config.fft_length as int / 2 + 1) <= usize::MAX
        },
{
}

/// The span of a filter is tight: it holds the places from the first to the last weight, and of the
/// others only those in the groups of four of these two.
pub proof fn filter_spans_are_tight(first: int, last: int, fft_bins: int, bin: int)
    requires
        0 <= first <= last < fft_bins <= usize::MAX,
        0 <= bin < fft_bins,
    ensures
        in_span(span_of(first, last, fft_bins), bin, fft_bins) <==> if bin < fft_bins - fft_bins
            % 4 {
            first - first % 4 <= bin < last - last % 4 + 4
        } else {
            first <= bin <= last
        },
{
}

/// Windows are cut exactly where the values of each can be counted and its valid frames lie within
/// the buffer.
pub proof fn windows_are_cut_where_they_lie_in_the_buffer(
    buffer: int,
    mel_bins: usize,
    plans: Seq<PreparedAudioFeatureWindowPlan>,
    k: nat,
)
    requires
        k <= plans.len(),
        0 <= buffer <= usize::MAX,
    ensures
        windows_problem(buffer, mel_bins, plans, k) is None <==> forall|i: int|
            0 <= i < k ==> {
                let plan = #[trigger] plans[i];
                &&& mel_bins * plan.padded_frames <= usize::MAX
                &&& (plan.start_frame + plan.valid_frames) * mel_bins <= buffer
            },
    decreases k,
{
    if k > 0 {
        windows_are_cut_where_they_lie_in_the_buffer(buffer, mel_bins, plans, (k - 1) as nat);
        let plan = plans[k - 1];
        assert((plan.start_frame + plan.valid_frames) * mel_bins == plan.start_frame * mel_bins
            + plan.valid_frames * mel_bins) by (nonlinear_arith);
        assert(0 <= plan.start_frame * mel_bins && 0 <= plan.valid_frames * mel_bins)
            by (nonlinear_arith);
    }
}

} // verus!
