//! The playback clock, and what is said of the audio that plays.

use vstd::prelude::*;

use crate::text::{decimal, decimal_text};
use crate::time::{capped, Duration, Instant};

verus! {

/// Where playback stands: a position at a moment, from which it goes on.
#[derive(Clone, Copy, Debug, PartialEq, Eq, Structural)]
pub struct PlaybackClock {
    pub anchor_position: Duration,
    pub anchor_instant: Instant,
    pub paused: bool,
    pub duration: Duration,
    pub started: bool,
}

/// A position within a track; a track of unknown length has no end.
pub open spec fn clamped(position: nat, duration: nat) -> nat {
    if duration > 0 && position > duration {
        duration
    } else {
        position
    }
}

impl PlaybackClock {
    /// The position at a moment.
    pub open spec fn position_of(self, now: nat) -> nat {
        if !self.started {
            0
        } else if self.paused {
            clamped(self.anchor_position@, self.duration@)
        } else {
            clamped(
                capped(
                    self.anchor_position@ + if now >= self.anchor_instant@ {
                        (now - self.anchor_instant@) as nat
                    } else {
                        0
                    },
                ),
                self.duration@,
            )
        }
    }

    pub fn new(now: Instant) -> (r: PlaybackClock)
        ensures
            r.anchor_position@ == 0,
            r.anchor_instant == now,
            r.paused,
            r.duration@ == 0,
            !r.started,
    {
        PlaybackClock {
            anchor_position: Duration { nanos: 0 },
            anchor_instant: now,
            paused: true,
            duration: Duration { nanos: 0 },
            started: false,
        }
    }

    /// Starts a track of a length.
    pub fn reset(&mut self, duration: Duration, now: Instant)
        ensures
            *final(self) == (PlaybackClock {
                anchor_position: Duration { nanos: 0 },
                anchor_instant: now,
                paused: false,
                duration,
                started: true,
            }),
    {
        self.anchor_position = Duration { nanos: 0 };
        self.anchor_instant = now;
        self.paused = false;
        self.duration = duration;
        self.started = true;
    }

    /// The position at a moment.
    pub fn position_at(&self, now: Instant) -> (r: Duration)
        ensures
            r@ == self.position_of(now@),
    {
        if !self.started {
            return Duration { nanos: 0 };
        }
        let position: Duration = if self.paused {
            self.anchor_position
        } else {
            self.anchor_position.saturating_add(now.saturating_duration_since(self.anchor_instant))
        };
        if !self.duration.is_zero() && position.nanos > self.duration.nanos {
            self.duration
        } else {
            position
        }
    }

    /// The clock after a track that plays was paused, or one that was paused
    /// goes on.
    pub open spec fn toggled(self, now: Instant) -> PlaybackClock {
        if !self.started {
            self
        } else if self.paused {
            PlaybackClock { paused: false, anchor_instant: now, ..self }
        } else {
            PlaybackClock {
                paused: true,
                anchor_position: Duration { nanos: self.position_of(now@) as u128 },
                ..self
            }
        }
    }

    /// The clock after a position was gone to.
    pub open spec fn sought(self, position: Duration, now: Instant) -> PlaybackClock {
        if !self.started {
            self
        } else {
            PlaybackClock {
                anchor_position: Duration { nanos: clamped(position@, self.duration@) as u128 },
                anchor_instant: now,
                ..self
            }
        }
    }

    /// Pauses a track that plays, and goes on with one that is paused.
    pub fn toggle(&mut self, now: Instant)
        ensures
            *final(self) == old(self).toggled(now),
            final(self).duration == old(self).duration,
            final(self).started == old(self).started,
            !old(self).started ==> *final(self) == *old(self),
            old(self).started ==> final(self).paused == !old(self).paused,
            old(self).started && old(self).paused ==> final(self).anchor_instant == now && final(self).anchor_position
                == old(self).anchor_position,
            old(self).started && !old(self).paused ==> final(self).anchor_position@ == old(self).position_of(now@)
                && final(self).anchor_instant == old(self).anchor_instant,
    {
        if !self.started {
            return;
        }
        if self.paused {
            self.anchor_instant = now;
            self.paused = false;
        } else {
            self.anchor_position = self.position_at(now);
            self.paused = true;
        }
    }

    /// Goes to a position, at most the track's end.
    pub fn seek(&mut self, position: Duration, now: Instant)
        ensures
            *final(self) == old(self).sought(position, now),
            !old(self).started ==> *final(self) == *old(self),
            old(self).started ==> final(self).anchor_position@ == clamped(position@, old(self).duration@)
                && final(self).anchor_instant == now && final(self).paused == old(self).paused && final(self).started
                && final(self).duration == old(self).duration,
    {
        if !self.started {
            return;
        }
        self.anchor_position = if !self.duration.is_zero() && position.nanos > self.duration.nanos {
            self.duration
        } else {
            position
        };
        self.anchor_instant = now;
    }
}

/// The position some seconds before or behind another, within the track.
pub open spec fn seek_target_of(position: nat, delta: int, duration: nat) -> nat {
    let moved = position + delta * 1_000_000_000;
    let target = if moved >= 0 { moved as nat } else { 0 };
    if target <= duration {
        target
    } else {
        duration
    }
}

/// The position some seconds before or behind another, within the track.
pub fn seek_target(position: Duration, delta: i64, duration: Duration) -> (r: Duration)
    requires
        position@ <= crate::time::MAX_NANOS,
    ensures
        r@ == seek_target_of(position@, delta as int, duration@),
{
    let moved: i128 = position.nanos as i128 + delta as i128 * 1_000_000_000;
    let target: u128 = if moved >= 0 {
        moved as u128
    } else {
        0
    };
    Duration { nanos: if target <= duration.nanos { target } else { duration.nanos } }
}

/// Where a decoder seeks to: the position that is asked for, or the end of the
/// track if its length is known and the position lies behind it.
pub fn within_track(position: Duration, total: Option<Duration>) -> (r: Duration)
    ensures
        r@ == match total {
            Some(length) => if position@ <= length@ {
                position@
            } else {
                length@
            },
            None => position@,
        },
{
    match total {
        Some(length) => if position.nanos <= length.nanos {
            position
        } else {
            length
        },
        None => position,
    }
}

// Laws of the clock.

/// While a track plays its position never goes back, and it never goes beyond
/// the track's end.
pub proof fn lemma_clock_monotone(clock: PlaybackClock, earlier: nat, later: nat)
    requires
        earlier <= later,
    ensures
        clock.position_of(earlier) <= clock.position_of(later),
        clock.duration@ > 0 ==> clock.position_of(later) <= clock.duration@,
{
}

/// A clock that is paused, or that was never started, stands still.
pub proof fn lemma_clock_still(clock: PlaybackClock, earlier: nat, later: nat)
    requires
        clock.paused || !clock.started,
    ensures
        clock.position_of(earlier) == clock.position_of(later),
        !clock.started ==> clock.position_of(later) == 0,
{
}

/// Between two moments a track that plays moves on by the time between them,
/// as long as it does not reach its end.
pub proof fn lemma_clock_smooth(clock: PlaybackClock, now: nat, span: nat)
    requires
        clock.started,
        !clock.paused,
        now >= clock.anchor_instant@,
        clock.anchor_position@ + (now - clock.anchor_instant@) + span <= crate::time::MAX_NANOS,
        clock.duration@ > 0 ==> clock.anchor_position@ + (now - clock.anchor_instant@) + span <= clock.duration@,
    ensures
        clock.position_of(now + span) == clock.position_of(now) + span,
{
}

/// Pausing and going on at the same moment leaves the position as it was, for
/// every moment from then on.
pub proof fn lemma_pause_resume(clock: PlaybackClock, paused: PlaybackClock, resumed: PlaybackClock, now: nat, later: nat)
    requires
        clock.started,
        !clock.paused,
        clock.anchor_instant@ <= now <= later,
        paused.started && paused.paused && paused.duration == clock.duration,
        paused.anchor_position@ == clock.position_of(now),
        resumed.started && !resumed.paused && resumed.duration == clock.duration,
        resumed.anchor_position == paused.anchor_position && resumed.anchor_instant@ == now,
    ensures
        paused.position_of(now) == clock.position_of(now),
        resumed.position_of(later) == clock.position_of(later),
{
}

/// What is known of the player at a moment.
#[derive(Clone, Debug)]
pub struct PlayerState {
    pub title: String,
    pub artists: String,
    pub elapsed: Duration,
    pub duration: Duration,
    pub paused: bool,
    /// The volume in percent.
    pub volume: u8,
    pub finished: bool,
    pub audio: AudioInfo,
}

/// What is known of a player that has played nothing.
pub open spec fn is_idle_state(state: PlayerState) -> bool {
    &&& state.title@.len() == 0
    &&& state.artists@.len() == 0
    &&& state.elapsed@ == 0
    &&& state.duration@ == 0
    &&& !state.paused
    &&& state.volume == 0
    &&& !state.finished
    &&& is_unknown_audio(state.audio)
}

impl Default for PlayerState {
    fn default() -> (r: PlayerState)
        ensures
            is_idle_state(r),
    {
        PlayerState {
            title: String::new(),
            artists: String::new(),
            elapsed: Duration { nanos: 0 },
            duration: Duration { nanos: 0 },
            paused: false,
            volume: 0,
            finished: false,
            audio: AudioInfo::default(),
        }
    }
}

// What is said of the audio.

#[derive(Clone, Debug)]
pub struct AudioInfo {
    pub codec: String,
    pub sample_rate: u32,
    pub channels: u16,
    pub bits_per_sample: Option<u32>,
}

/// Audio of which nothing is known.
pub open spec fn is_unknown_audio(audio: AudioInfo) -> bool {
    &&& audio.codec@.len() == 0
    &&& audio.sample_rate == 0
    &&& audio.channels == 0
    &&& audio.bits_per_sample is None
}

impl Default for AudioInfo {
    fn default() -> (r: AudioInfo)
        ensures
            is_unknown_audio(r),
    {
        AudioInfo { codec: String::new(), sample_rate: 0, channels: 0, bits_per_sample: None }
    }
}

/// What `str::to_uppercase` returns for a text.
pub uninterp spec fn uppercase(s: Seq<char>) -> Seq<char>;

/// `str::to_uppercase`: the upper-case form of a text, which depends on the text alone.
#[verifier::external_body]
pub(crate) fn to_uppercase(s: &str) -> (r: String)
    ensures
        r@ == uppercase(s@),
{
    s.to_uppercase()
}

/// A quotient to the nearest whole number; one half goes to the even one.
pub open spec fn rounded(numerator: nat, denominator: nat) -> nat {
    let q = numerator / denominator;
    let r = numerator % denominator;
    if 2 * r > denominator || (2 * r == denominator && q % 2 == 1) {
        q + 1
    } else {
        q
    }
}

pub open spec fn power_of_two(n: nat) -> nat
    decreases n,
{
    if n == 0 {
        1
    } else {
        2 * power_of_two((n - 1) as nat)
    }
}

/// How many low bits a number loses that is kept with 24 significant bits.
pub open spec fn dropped_bits(n: nat) -> nat
    decreases n,
{
    if n < 0x100_0000 {
        0
    } else {
        1 + dropped_bits(n / 2)
    }
}

/// A number kept with 24 significant bits.
pub open spec fn single(n: nat) -> nat {
    let unit = power_of_two(dropped_bits(n));
    rounded(n, unit) * unit
}

/// By which power of two a number has to be multiplied to have 24 significant
/// bits behind division by a thousand.
pub open spec fn scale_bits(n: nat, fuel: nat) -> nat
    decreases fuel,
{
    if fuel == 0 || n >= 1_000 * 0x80_0000 {
        0
    } else {
        1 + scale_bits(2 * n, (fuel - 1) as nat)
    }
}

/// The tenths of a kilohertz in a sample rate. The quotient is taken with 24
/// significant bits before it is rounded.
pub open spec fn kilohertz_tenths(sample_rate: nat) -> nat {
    let rate = single(sample_rate);
    let unit = power_of_two(scale_bits(rate, 40));
    rounded(rounded(rate * unit, 1_000) * 10, unit)
}

pub open spec fn rate_text(sample_rate: nat) -> Seq<char> {
    if sample_rate % 1_000 == 0 {
        decimal(sample_rate / 1_000) + "kHz"@
    } else {
        let tenths = kilohertz_tenths(sample_rate);
        decimal(tenths / 10) + "."@ + decimal(tenths % 10) + "kHz"@
    }
}

/// The audio in a few words, given the name of its codec in upper case.
pub open spec fn compact_of(codec: Seq<char>, sample_rate: nat, bits: Option<u32>) -> Seq<char> {
    if sample_rate == 0 {
        Seq::empty()
    } else {
        codec + " · "@ + rate_text(sample_rate) + match bits {
            Some(n) => " · "@ + decimal(n as nat) + "bit"@,
            None => Seq::empty(),
        }
    }
}

fn round_even(numerator: u128, denominator: u128) -> (r: u128)
    requires
        0 < denominator <= 0x1_0000_0000_0000_0000,
        numerator <= 0x1_0000_0000_0000_0000_0000_0000,
    ensures
        r == rounded(numerator as nat, denominator as nat),
        r <= numerator + 1,
        r <= numerator / denominator + 1,
{
    let q: u128 = numerator / denominator;
    let rest: u128 = numerator % denominator;
    proof {
        assert(numerator / denominator <= numerator) by (nonlinear_arith)
            requires
                denominator > 0,
        ;
    }
    if 2 * rest > denominator || (2 * rest == denominator && q % 2 == 1) {
        q + 1
    } else {
        q
    }
}

fn tenths_of_kilohertz(sample_rate: u32) -> (r: u64)
    requires
        sample_rate > 0,
    ensures
        r == kilohertz_tenths(sample_rate as nat),
{
    let mut unit: u128 = 1;
    let mut shrunk: u128 = sample_rate as u128;
    let ghost mut bits: nat = 0;
    while shrunk >= 0x100_0000
        invariant
            shrunk <= 0xffff_ffff,
            unit == power_of_two(bits),
            dropped_bits(sample_rate as nat) == bits + dropped_bits(shrunk as nat),
            unit * shrunk <= sample_rate,
            unit >= 1,
            shrunk >= 1,
        decreases shrunk,
    {
        proof {
            bits = bits + 1;
            let half = shrunk / 2;
            assert(2 * unit * half <= unit * shrunk) by (nonlinear_arith)
                requires
                    2 * half <= shrunk,
                    unit >= 0,
                    half == shrunk / 2,
            ;
            assert(unit <= unit * shrunk) by (nonlinear_arith)
                requires
                    shrunk >= 1,
                    unit >= 0,
            ;
        }
        unit = 2 * unit;
        shrunk = shrunk / 2;
    }
    proof {
        assert(unit <= unit * shrunk) by (nonlinear_arith)
            requires
                shrunk >= 1,
                unit >= 0,
        ;
    }
    let whole: u128 = round_even(sample_rate as u128, unit);
    proof {
        lemma_rounded_near(sample_rate as nat, unit as nat);
    }
    let rate: u128 = whole * unit;
    let mut scale: u128 = 1;
    let mut grown: u128 = rate;
    let mut fuel: u32 = 40;
    let ghost mut steps: nat = 0;
    while fuel > 0 && grown < 1_000 * 0x80_0000
        invariant
            fuel <= 40,
            steps + fuel == 40,
            scale == power_of_two(steps),
            1 <= scale <= 0x100_0000_0000,
            rate <= 0x1_ffff_ffff,
            grown == rate * scale,
            grown <= 0x1_ffff_ffff || grown < 2 * 1_000 * 0x80_0000,
            scale_bits(rate as nat, 40) == steps + scale_bits(grown as nat, fuel as nat),
        decreases fuel,
    {
        proof {
            steps = steps + 1;
            assert(rate * (2 * scale) == 2 * (rate * scale)) by (nonlinear_arith);
            lemma_pow2_bound(steps);
        }
        grown = 2 * grown;
        scale = 2 * scale;
        fuel = fuel - 1;
    }
    let kilo: u128 = round_even(grown, 1_000);
    let tenths: u128 = round_even(kilo * 10, scale);
    proof {
        lemma_tenths_small(grown as nat, kilo as nat, scale as nat, rate as nat);
    }
    tenths as u64
}

proof fn lemma_pow2_bound(n: nat)
    requires
        n <= 40,
    ensures
        power_of_two(n) <= 0x100_0000_0000,
{
    lemma_pow2_steps(n, 40);
    lemma_pow2_ten_more(0);
    lemma_pow2_ten_more(10);
    lemma_pow2_ten_more(20);
    lemma_pow2_ten_more(30);
}

proof fn lemma_pow2_ten_more(n: nat)
    ensures
        power_of_two(0) == 1,
        power_of_two(n + 10) == 1024 * power_of_two(n),
{
    reveal_with_fuel(power_of_two, 12);
}

proof fn lemma_pow2_steps(n: nat, m: nat)
    requires
        n <= m,
    ensures
        power_of_two(n) <= power_of_two(m),
        power_of_two(n) >= 1,
    decreases m,
{
    if n < m {
        lemma_pow2_steps(n, (m - 1) as nat);
    } else if n > 0 {
        lemma_pow2_steps((n - 1) as nat, (n - 1) as nat);
    }
}

proof fn lemma_rounded_near(n: nat, unit: nat)
    requires
        0 < unit <= n,
        n <= 0xffff_ffff,
    ensures
        rounded(n, unit) * unit <= 0x1_ffff_ffff,
{
    let q = n / unit;
    assert(q * unit <= n) by (nonlinear_arith)
        requires
            q == n / unit,
            unit > 0,
    ;
    assert((q + 1) * unit == q * unit + unit) by (nonlinear_arith);
}

proof fn lemma_tenths_small(grown: nat, kilo: nat, scale: nat, rate: nat)
    requires
        grown == rate * scale,
        rate <= 0x1_ffff_ffff,
        scale >= 1,
        kilo <= grown / 1_000 + 1,
    ensures
        rounded(kilo * 10, scale) <= u64::MAX,
{
    assert(kilo * 10 <= (rate + 10) * scale) by (nonlinear_arith)
        requires
            kilo <= grown / 1_000 + 1,
            grown == rate * scale,
            scale >= 1,
    ;
    assert((kilo * 10) / scale <= rate + 10) by (nonlinear_arith)
        requires
            kilo * 10 <= (rate + 10) * scale,
            scale >= 1,
    ;
}

/// The audio in a few words, given the name of its codec in upper case.
pub fn describe_audio(codec: &str, sample_rate: u32, bits: Option<u32>) -> (r: String)
    ensures
        r@ == compact_of(codec@, sample_rate as nat, bits),
{
    if sample_rate == 0 {
        return String::new();
    }
    let mut out: String = codec.to_owned();
    out.append(" · ");
    if sample_rate % 1_000 == 0 {
        out.append(decimal_text((sample_rate / 1_000) as u64).concat("kHz").as_str());
    } else {
        let tenths: u64 = tenths_of_kilohertz(sample_rate);
        let mut rate: String = decimal_text(tenths / 10);
        rate.append(".");
        rate.append(decimal_text(tenths % 10).as_str());
        rate.append("kHz");
        out.append(rate.as_str());
    }
    if let Some(n) = bits {
        let mut depth: String = " · ".to_owned();
        depth.append(decimal_text(n as u64).as_str());
        depth.append("bit");
        out.append(depth.as_str());
    } else {
        proof {
            assert(out@ + Seq::<char>::empty() =~= out@);
        }
    }
    out
}

impl AudioInfo {
    /// The audio in a few words.
    pub fn compact(&self) -> (r: String)
        ensures
            r@ == compact_of(uppercase(self.codec@), self.sample_rate as nat, self.bits_per_sample),
    {
        describe_audio(to_uppercase(self.codec.as_str()).as_str(), self.sample_rate, self.bits_per_sample)
    }
}

// How a track is read.

/// What reading the next packet came to.
#[derive(Clone, Copy, Debug, PartialEq, Eq, Structural)]
pub enum PacketEvent {
    /// A packet of the track with a number.
    Packet(u32),
    ResetRequired,
    /// The end, or a failure.
    Ended,
}

/// What decoding a packet came to.
#[derive(Clone, Copy, Debug, PartialEq, Eq, Structural)]
pub enum DecodeEvent {
    /// So many frames.
    Frames(usize),
    /// A packet that cannot be decoded.
    Corrupt,
    ResetRequired,
    Failed,
}

/// What follows.
#[derive(Clone, Copy, Debug, PartialEq, Eq, Structural)]
pub enum DecoderStep {
    /// Decode the packet.
    Decode,
    /// Play what was decoded.
    Play,
    /// Read the next packet.
    Next,
    /// Make the decoder anew, and read the next packet.
    Rebuild,
    /// There is no more.
    Stop,
}

/// Packets of other tracks are passed over.
pub fn packet_step(event: PacketEvent, track_id: u32) -> (r: DecoderStep)
    ensures
        r == match event {
            PacketEvent::Packet(id) => if id == track_id {
                DecoderStep::Decode
            } else {
                DecoderStep::Next
            },
            PacketEvent::ResetRequired => DecoderStep::Rebuild,
            PacketEvent::Ended => DecoderStep::Stop,
        },
{
    match event {
        PacketEvent::Packet(id) => if id == track_id {
            DecoderStep::Decode
        } else {
            DecoderStep::Next
        },
        PacketEvent::ResetRequired => DecoderStep::Rebuild,
        PacketEvent::Ended => DecoderStep::Stop,
    }
}

/// Packets without frames, and those that cannot be decoded, are passed over.
pub fn decode_step(event: DecodeEvent) -> (r: DecoderStep)
    ensures
        r == match event {
            DecodeEvent::Frames(count) => if count > 0 {
                DecoderStep::Play
            } else {
                DecoderStep::Next
            },
            DecodeEvent::Corrupt => DecoderStep::Next,
            DecodeEvent::ResetRequired => DecoderStep::Rebuild,
            DecodeEvent::Failed => DecoderStep::Stop,
        },
{
    match event {
        DecodeEvent::Frames(count) => if count > 0 {
            DecoderStep::Play
        } else {
            DecoderStep::Next
        },
        DecodeEvent::Corrupt => DecoderStep::Next,
        DecodeEvent::ResetRequired => DecoderStep::Rebuild,
        DecodeEvent::Failed => DecoderStep::Stop,
    }
}

/// How many samples are left of those that were decoded, if any.
pub fn samples_left(decoded: usize, played: usize) -> (r: Option<usize>)
    ensures
        r == if played < decoded {
            Some((decoded - played) as usize)
        } else {
            None
        },
{
    if played < decoded {
        Some(decoded - played)
    } else {
        None
    }
}

// Laws of seeking.

/// Seeking moves by exactly the seconds that are asked for, in either direction,
/// as long as that stays within the track; otherwise it stops at the start or at
/// the end. Going back by as much leads back to where one was.
pub proof fn lemma_seek_target(position: nat, delta: int, duration: nat)
    ensures
        0 <= position + delta * 1_000_000_000 <= duration ==> seek_target_of(position, delta, duration) == position
            + delta * 1_000_000_000,
        position + delta * 1_000_000_000 < 0 ==> seek_target_of(position, delta, duration) == 0,
        position + delta * 1_000_000_000 > duration ==> seek_target_of(position, delta, duration) == duration,
        0 <= position + delta * 1_000_000_000 <= duration && position <= duration ==> seek_target_of(
            seek_target_of(position, delta, duration),
            -delta,
            duration,
        ) == position,
{
}

/// A clock that was put to a position shows that position at that moment, or
/// the end of the track where the position lies behind it, and plays or rests
/// as before.
pub proof fn lemma_clock_shows_position(clock: PlaybackClock, position: Duration, now: Instant)
    requires
        clock.started,
        position@ <= crate::time::MAX_NANOS,
    ensures
        clock.duration@ == 0 || position@ <= clock.duration@ ==> clock.sought(position, now).position_of(now@)
            == position@,
        0 < clock.duration@ < position@ ==> clock.sought(position, now).position_of(now@) == clock.duration@,
        clock.sought(position, now).paused == clock.paused,
        clock.sought(position, now).duration == clock.duration,
{
}

/// Pausing stops a clock where it is, for good; going on starts it from there,
/// and from then on it moves with the time.
pub proof fn lemma_toggling(clock: PlaybackClock, now: Instant, later: nat)
    requires
        clock.started,
        clock.anchor_instant@ <= now@ <= later,
        clock.anchor_position@ + later <= crate::time::MAX_NANOS,
    ensures
        clock.toggled(now).paused == !clock.paused,
        clock.toggled(now).position_of(now@) == clock.position_of(now@),
        !clock.paused ==> clock.toggled(now).position_of(later) == clock.position_of(now@),
        clock.paused && (clock.duration@ == 0 || clock.anchor_position@ + (later - now@) <= clock.duration@)
            ==> clock.toggled(now).position_of(later) == clock.position_of(now@) + (later - now@),
        clock.toggled(now).toggled(now).position_of(later) == clock.position_of(later),
{
}

/// A clock that was started over shows how long that is ago, up to the length
/// of the track.
pub proof fn lemma_clock_from_start(clock: PlaybackClock, span: nat)
    requires
        clock.started,
        !clock.paused,
        clock.anchor_position@ == 0,
        span <= crate::time::MAX_NANOS,
    ensures
        clock.duration@ == 0 || span <= clock.duration@ ==> clock.position_of(clock.anchor_instant@ + span) == span,
        0 < clock.duration@ < span ==> clock.position_of(clock.anchor_instant@ + span) == clock.duration@,
{
}

/// A quotient is rounded to a nearest whole number: twice what it is off is no
/// more than the divisor, and a tie goes to the even one.
pub proof fn lemma_rounded(numerator: nat, denominator: nat)
    requires
        denominator > 0,
    ensures
        2 * numerator <= 2 * (rounded(numerator, denominator) * denominator) + denominator,
        2 * (rounded(numerator, denominator) * denominator) <= 2 * numerator + denominator,
        2 * numerator == 2 * (rounded(numerator, denominator) * denominator) + denominator || 2 * (rounded(
            numerator,
            denominator,
        ) * denominator) == 2 * numerator + denominator ==> rounded(numerator, denominator) % 2 == 0,
{
    let q = numerator / denominator;
    let r = numerator % denominator;
    assert(numerator == q * denominator + r) by {
        vstd::arithmetic::div_mod::lemma_fundamental_div_mod(numerator as int, denominator as int);
        assert(denominator * q == q * denominator) by (nonlinear_arith);
    }
    assert((q + 1) * denominator == q * denominator + denominator) by (nonlinear_arith);
}

/// The audio is described by its codec, its rate in kilohertz and its bits, each
/// where it is known: a whole number of kilohertz is written as such.
pub proof fn lemma_compact(codec: Seq<char>, kilohertz: nat, bits: u32)
    requires
        kilohertz > 0,
    ensures
        compact_of(codec, 0, Some(bits)) == Seq::<char>::empty(),
        compact_of(codec, kilohertz * 1_000, None) == codec + " · "@ + decimal(kilohertz) + "kHz"@,
        compact_of(codec, kilohertz * 1_000, Some(bits)) == codec + " · "@ + decimal(kilohertz) + "kHz"@ + " · "@
            + decimal(bits as nat) + "bit"@,
{
    assert((kilohertz * 1_000) % 1_000 == 0);
    assert((kilohertz * 1_000) / 1_000 == kilohertz);
    assert(compact_of(codec, kilohertz * 1_000, None) =~= codec + " · "@ + decimal(kilohertz) + "kHz"@);
    assert(compact_of(codec, kilohertz * 1_000, Some(bits)) =~= codec + " · "@ + decimal(kilohertz) + "kHz"@ + " · "@
        + decimal(bits as nat) + "bit"@);
}

} // verus!
