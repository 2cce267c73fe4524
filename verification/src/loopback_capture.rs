//! What the speakers are playing, on its way to the mixer.
//!
//! Recording the microphone alone gives half a meeting. Where the platform can
//! capture what is played, a capture thread puts mono samples in here and the
//! mixer takes them out; a sample is any plain value. On a platform that cannot,
//! everything here does nothing.

use vstd::prelude::*;

verus! {

/// How many seconds of sound may wait for the mixer.
pub const BUFFER_SECONDS: u64 = 60;

/// The captured samples, and whether capturing goes on.
pub struct Loopback<T> {
    supported: bool,
    capturing: bool,
    rate: u32,
    waiting: Vec<T>,
}

/// The captured samples, whether capturing goes on, and at what rate.
#[verifier::ext_equal]
pub struct LoopbackView<T> {
    pub supported: bool,
    pub capturing: bool,
    pub rate: u32,
    pub waiting: Seq<T>,
}

/// After capturing began.
pub open spec fn capture_begun<T>(v: LoopbackView<T>) -> LoopbackView<T> {
    if v.supported && !v.capturing {
        LoopbackView { capturing: true, waiting: Seq::empty(), ..v }
    } else {
        v
    }
}

/// After capturing ended.
pub open spec fn capture_ended<T>(v: LoopbackView<T>) -> LoopbackView<T> {
    LoopbackView { capturing: false, ..v }
}

/// After a device was opened.
pub open spec fn device_noted<T>(v: LoopbackView<T>, channels: u16, rate: u32) -> LoopbackView<T> {
    if channels != 0 {
        LoopbackView { rate, ..v }
    } else {
        v
    }
}

/// After a packet came in.
pub open spec fn packet_put<T>(v: LoopbackView<T>, packet: Seq<T>) -> LoopbackView<T> {
    if v.supported {
        LoopbackView { waiting: after_packet(v.waiting, packet, capacity(v.rate)), ..v }
    } else {
        v
    }
}

/// After samples were taken for `max` samples at another rate.
pub open spec fn samples_gone<T>(v: LoopbackView<T>, target_rate: u32, max: nat) -> LoopbackView<
    T,
> {
    LoopbackView {
        waiting: v.waiting.skip(taken_at(v.waiting.len(), v.rate, target_rate, max) as int),
        ..v
    }
}

impl<T> Loopback<T> {
    /// Whether the platform can capture what is played.
    pub closed spec fn supported(self) -> bool {
        self.supported
    }

    /// Whether the capture thread is meant to run.
    pub closed spec fn capturing(self) -> bool {
        self.capturing
    }

    /// Samples per second of the captured device, zero while it is not known.
    pub closed spec fn rate(self) -> u32 {
        self.rate
    }

    /// The samples that wait, oldest first.
    pub closed spec fn waiting(self) -> Seq<T> {
        self.waiting@
    }

    /// All of it at once.
    pub open spec fn state(self) -> LoopbackView<T> {
        LoopbackView {
            supported: self.supported(),
            capturing: self.capturing(),
            rate: self.rate(),
            waiting: self.waiting(),
        }
    }

    /// Where nothing can be captured, nothing is.
    pub open spec fn wf(self) -> bool {
        !self.supported() ==> !self.capturing() && self.rate() == 0 && self.waiting().len() == 0
    }

    /// Nothing captured yet.
    pub fn new(supported: bool) -> (r: Self)
        ensures
            r.wf(),
            r.supported() == supported,
            !r.capturing(),
            r.rate() == 0,
            r.waiting() == Seq::<T>::empty(),
    {
        Loopback { supported, capturing: false, rate: 0, waiting: Vec::new() }
    }

    /// Whether the capture thread is meant to run.
    pub fn is_capturing(&self) -> (r: bool)
        ensures
            r == self.capturing(),
    {
        self.capturing
    }

    /// Samples per second of the captured device, zero while it is not known.
    pub fn sample_rate(&self) -> (r: u32)
        ensures
            r == self.rate(),
    {
        self.rate
    }
}

/// Begins capturing, with nothing waiting. Says whether a capture thread has to
/// be started: not while one is running, nor where nothing can be captured.
pub fn start<T>(loopback: &mut Loopback<T>) -> (begun: bool)
    requires
        old(loopback).wf(),
    ensures
        final(loopback).wf(),
        begun == (old(loopback).supported() && !old(loopback).capturing()),
        final(loopback).supported() == old(loopback).supported(),
        final(loopback).rate() == old(loopback).rate(),
        final(loopback).capturing() == old(loopback).supported(),
        final(loopback).waiting() == if begun {
            Seq::<T>::empty()
        } else {
            old(loopback).waiting()
        },
        final(loopback).state() == capture_begun(old(loopback).state()),
{
    if !loopback.supported || loopback.capturing {
        return false;
    }
    loopback.capturing = true;
    loopback.waiting = Vec::new();
    true
}

/// Ends capturing. What waits stays until it is taken.
pub fn stop<T>(loopback: &mut Loopback<T>)
    requires
        old(loopback).wf(),
    ensures
        final(loopback).wf(),
        !final(loopback).capturing(),
        final(loopback).supported() == old(loopback).supported(),
        final(loopback).rate() == old(loopback).rate(),
        final(loopback).waiting() == old(loopback).waiting(),
        final(loopback).state() == capture_ended(old(loopback).state()),
{
    loopback.capturing = false;
}

/// Notes the format of the device that was opened. A device without channels
/// cannot be captured.
pub fn device_opened<T>(loopback: &mut Loopback<T>, channels: u16, rate: u32) -> (r: Result<
    (),
    String,
>)
    requires
        old(loopback).wf(),
        old(loopback).supported(),
    ensures
        final(loopback).wf(),
        r is Ok <==> channels != 0,
        r is Err ==> r->Err_0@ == "Playback device reports zero channels"@,
        final(loopback).rate() == if channels != 0 {
            rate
        } else {
            old(loopback).rate()
        },
        final(loopback).supported() == old(loopback).supported(),
        final(loopback).capturing() == old(loopback).capturing(),
        final(loopback).waiting() == old(loopback).waiting(),
        final(loopback).state() == device_noted(old(loopback).state(), channels, rate),
{
    if channels == 0 {
        return Err("Playback device reports zero channels".to_owned());
    }
    loopback.rate = rate;
    Ok(())
}

/// How the samples of a packet are to be read.
#[derive(Clone, Copy, PartialEq, Eq, Structural, Debug)]
pub enum PacketFormat {
    /// Nothing was played, or it cannot be read: silence of the same length.
    Silence,
    /// Floating-point samples.
    Float32,
    /// Sixteen-bit integer samples.
    Int16,
}

/// How to read a packet. Silence is what the device reports as such, what comes
/// without data, and any sample size but 32 and 16 bits.
pub fn packet_format(silent: bool, has_data: bool, bits: u16) -> (r: PacketFormat)
    ensures
        r == if silent || !has_data {
            PacketFormat::Silence
        } else if bits == 32 {
            PacketFormat::Float32
        } else if bits == 16 {
            PacketFormat::Int16
        } else {
            PacketFormat::Silence
        },
{
    if silent || !has_data {
        PacketFormat::Silence
    } else if bits == 32 {
        PacketFormat::Float32
    } else if bits == 16 {
        PacketFormat::Int16
    } else {
        PacketFormat::Silence
    }
}

/// How many of the oldest samples have to go before a packet comes in.
pub open spec fn trimmed_by(waiting: nat, packet: nat, cap: nat) -> nat {
    if waiting + packet <= cap {
        0
    } else if waiting + packet - cap <= waiting {
        (waiting + packet - cap) as nat
    } else {
        waiting
    }
}

/// What waits after a packet came in, where at most `cap` samples may.
pub open spec fn after_packet<T>(waiting: Seq<T>, packet: Seq<T>, cap: nat) -> Seq<T> {
    waiting.skip(trimmed_by(waiting.len(), packet.len(), cap) as int) + packet
}

/// The most samples that may wait at a rate.
pub open spec fn capacity(rate: u32) -> nat {
    (rate * BUFFER_SECONDS) as nat
}

/// Puts a packet of mono samples at the end. A mixer that has stalled cannot
/// make the buffer grow without bound: the oldest samples go first.
pub fn push_packet<T: Copy>(loopback: &mut Loopback<T>, packet: &Vec<T>)
    requires
        old(loopback).wf(),
    ensures
        final(loopback).wf(),
        final(loopback).waiting() == if old(loopback).supported() {
            after_packet(old(loopback).waiting(), packet@, capacity(old(loopback).rate()))
        } else {
            Seq::<T>::empty()
        },
        final(loopback).supported() == old(loopback).supported(),
        final(loopback).capturing() == old(loopback).capturing(),
        final(loopback).rate() == old(loopback).rate(),
        final(loopback).state() == packet_put(old(loopback).state(), packet@),
{
    if !loopback.supported {
        assert(loopback.waiting@ =~= Seq::<T>::empty());
        return;
    }
    let ghost old_waiting = loopback.waiting@;
    let cap: u128 = loopback.rate as u128 * BUFFER_SECONDS as u128;
    let have: usize = loopback.waiting.len();
    let total: u128 = have as u128 + packet.len() as u128;
    let trim: usize = if total <= cap {
        0
    } else if total - cap <= have as u128 {
        (total - cap) as usize
    } else {
        have
    };
    assert(trim == trimmed_by(old_waiting.len(), packet@.len(), capacity(loopback.rate)));
    let mut kept = loopback.waiting.split_off(trim);
    assert(kept@ =~= old_waiting.skip(trim as int));
    for i in 0..packet.len()
        invariant
            kept@ == old_waiting.skip(trim as int) + packet@.take(i as int),
    {
        kept.push(packet[i]);
        assert(kept@ =~= old_waiting.skip(trim as int) + packet@.take(i + 1));
    }
    assert(packet@.take(packet@.len() as int) == packet@);
    loopback.waiting = kept;
}

// ---------------------------------------------------------------------------
// Taking samples at another rate
// ---------------------------------------------------------------------------

/// How many samples of a device stand for `max` samples at another rate: as many as
/// are needed, and no more.
pub open spec fn wanted(max: nat, rate: u32, target_rate: u32) -> nat
    recommends
        target_rate > 0,
{
    ((max * rate + target_rate - 1) / (target_rate as int)) as nat
}

/// The lesser of two numbers.
pub open spec fn lesser(a: nat, b: nat) -> nat {
    if a <= b {
        a
    } else {
        b
    }
}

/// How many samples at another rate come of `n` samples of a device, where at most
/// `max` may.
pub open spec fn yielded(n: nat, rate: u32, target_rate: u32, max: nat) -> nat {
    if rate == target_rate {
        lesser(n, max)
    } else {
        lesser(n * (target_rate as nat) / (rate as nat), max)
    }
}

/// Which of the samples of a device stands just before the `i`-th sample at another
/// rate, or at it.
pub open spec fn sample_before(i: int, rate: u32, target_rate: u32) -> int {
    i * rate / (target_rate as int)
}

/// How far the `i`-th sample at another rate is behind that one, as a part of
/// `target_rate`.
pub open spec fn part_behind(i: int, rate: u32, target_rate: u32) -> int {
    i * rate % (target_rate as int)
}

/// Which of `n` samples of a device stands behind the `i`-th sample at another rate.
pub open spec fn sample_behind(i: int, n: nat, rate: u32, target_rate: u32) -> int {
    if sample_before(i, rate, target_rate) + 1 < n {
        sample_before(i, rate, target_rate) + 1
    } else {
        n - 1
    }
}

/// Whether samples are those of a device at another rate, at most `max` of them:
/// the same samples where the rates are equal, and otherwise each made by `blend` out
/// of the two samples around it, as far from the first as the part says.
pub open spec fn is_resampled<T, F: Fn(T, T, u32, u32) -> T>(
    source: Seq<T>,
    rate: u32,
    target_rate: u32,
    max: nat,
    blend: F,
    r: Seq<T>,
) -> bool {
    &&& r.len() == yielded(source.len(), rate, target_rate, max)
    &&& rate == target_rate ==> r == source.take(r.len() as int)
    &&& rate != target_rate ==> forall|i: int|
        0 <= i < r.len() ==> call_ensures(
            blend,
            (
                source[sample_before(i, rate, target_rate)],
                source[sample_behind(i, source.len(), rate, target_rate)],
                part_behind(i, rate, target_rate) as u32,
                target_rate,
            ),
            #[trigger] r[i],
        )
}

proof fn lemma_product_fits(a: usize, b: u32)
    ensures
        0 <= a * b <= 0xffff_ffff_ffff_ffff * 0xffff_ffff,
{
    assert(0 <= a * b <= 0xffff_ffff_ffff_ffff * 0xffff_ffff) by (nonlinear_arith)
        requires
            0 <= a <= 0xffff_ffff_ffff_ffff,
            0 <= b <= 0xffff_ffff,
    ;
}

/// How many samples of a device stand for `max` samples at another rate.
pub fn wanted_source(max: usize, rate: u32, target_rate: u32) -> (r: u128)
    requires
        target_rate > 0,
    ensures
        r == wanted(max as nat, rate, target_rate),
{
    proof {
        lemma_product_fits(max, rate);
    }
    (max as u128 * rate as u128 + (target_rate - 1) as u128) / target_rate as u128
}

proof fn lemma_sample_is_there(i: int, n: int, rate: int, target_rate: int)
    requires
        rate > 0,
        target_rate > 0,
        0 <= i < n * target_rate / rate,
    ensures
        0 <= i * rate / target_rate < n,
{
    let q = n * target_rate / rate;
    vstd::arithmetic::div_mod::lemma_fundamental_div_mod(n * target_rate, rate);
    assert(i * rate < n * target_rate) by (nonlinear_arith)
        requires
            0 <= i < q,
            rate > 0,
            rate * q <= n * target_rate,
    ;
    assert(i * rate < target_rate * n) by (nonlinear_arith)
        requires
            i * rate < n * target_rate,
    ;
    vstd::arithmetic::div_mod::lemma_multiply_divide_lt(i * rate, target_rate, n);
    assert(0 <= i * rate) by (nonlinear_arith)
        requires
            0 <= i,
            rate > 0,
    ;
    vstd::arithmetic::div_mod::lemma_div_pos_is_pos(i * rate, target_rate);
}

/// The samples of a device at another rate, at most `max` of them. `blend` is handed
/// the two samples around each, and how far it is from the first as a numerator and a
/// denominator.
pub fn resample<T: Copy, F: Fn(T, T, u32, u32) -> T>(
    source: &Vec<T>,
    rate: u32,
    target_rate: u32,
    max: usize,
    blend: F,
) -> (r: Vec<T>)
    requires
        rate > 0,
        target_rate > 0,
        forall|a: T, b: T, part: u32, whole: u32| call_requires(blend, (a, b, part, whole)),
    ensures
        is_resampled(source@, rate, target_rate, max as nat, blend, r@),
{
    let n: usize = source.len();
    let mut r: Vec<T> = Vec::new();
    if rate == target_rate {
        let count: usize = if n <= max {
            n
        } else {
            max
        };
        for i in 0..count
            invariant
                count <= source@.len(),
                r@ == source@.take(i as int),
        {
            r.push(source[i]);
            assert(r@ =~= source@.take(i + 1));
        }
        return r;
    }
    proof {
        lemma_product_fits(n, target_rate);
    }
    let length: u128 = n as u128 * target_rate as u128 / rate as u128;
    let count: usize = if length <= max as u128 {
        length as usize
    } else {
        max
    };
    for i in 0..count
        invariant
            rate > 0,
            target_rate > 0,
            n == source@.len(),
            length == n * target_rate / (rate as int),
            count <= length,
            forall|a: T, b: T, part: u32, whole: u32| call_requires(blend, (a, b, part, whole)),
            r@.len() == i,
            forall|k: int|
                0 <= k < i ==> call_ensures(
                    blend,
                    (
                        source@[sample_before(k, rate, target_rate)],
                        source@[sample_behind(k, n as nat, rate, target_rate)],
                        part_behind(k, rate, target_rate) as u32,
                        target_rate,
                    ),
                    #[trigger] r@[k],
                ),
    {
        proof {
            lemma_product_fits(i, rate);
            lemma_sample_is_there(i as int, n as int, rate as int, target_rate as int);
        }
        let place: u128 = i as u128 * rate as u128;
        let left: usize = (place / target_rate as u128) as usize;
        let part: u32 = (place % target_rate as u128) as u32;
        let right: usize = if left + 1 < n {
            left + 1
        } else {
            n - 1
        };
        let sample = blend(source[left], source[right], part, target_rate);
        r.push(sample);
    }
    r
}

/// How many of the samples that wait are taken for `max` samples at another rate.
pub open spec fn taken_at(waiting: nat, rate: u32, target_rate: u32, max: nat) -> nat {
    if rate == 0 || target_rate == 0 || max == 0 {
        0
    } else {
        lesser(wanted(max, rate, target_rate), waiting)
    }
}

/// Takes out the oldest samples that stand for `max` samples at `target_rate`, and
/// gives them at that rate: at most `max`. Nothing is taken while a rate is not known.
pub fn take_samples<T: Copy, F: Fn(T, T, u32, u32) -> T>(
    loopback: &mut Loopback<T>,
    target_rate: u32,
    max: usize,
    blend: F,
) -> (r: Vec<T>)
    requires
        old(loopback).wf(),
        forall|a: T, b: T, part: u32, whole: u32| call_requires(blend, (a, b, part, whole)),
    ensures
        final(loopback).wf(),
        r@.len() <= max,
        ({
            let before = old(loopback).waiting();
            let rate = old(loopback).rate();
            let k = taken_at(before.len(), rate, target_rate, max as nat) as int;
            &&& final(loopback).waiting() == before.skip(k)
            &&& k == 0 ==> r@.len() == 0
            &&& k > 0 ==> is_resampled(before.take(k), rate, target_rate, max as nat, blend, r@)
        }),
        old(loopback).rate() == target_rate && target_rate != 0 ==> {
            let k = lesser(max as nat, old(loopback).waiting().len()) as int;
            &&& r@ == old(loopback).waiting().take(k)
            &&& final(loopback).waiting() == old(loopback).waiting().skip(k)
        },
        final(loopback).supported() == old(loopback).supported(),
        final(loopback).capturing() == old(loopback).capturing(),
        final(loopback).rate() == old(loopback).rate(),
        final(loopback).state() == samples_gone(old(loopback).state(), target_rate, max as nat),
{
    let ghost old_waiting = loopback.waiting@;
    let rate: u32 = loopback.rate;
    if rate == 0 || target_rate == 0 || max == 0 {
        let none: Vec<T> = Vec::new();
        assert(old_waiting.skip(0) =~= old_waiting);
        assert(none@ =~= old_waiting.take(0));
        return none;
    }
    let have: usize = loopback.waiting.len();
    let needed: u128 = wanted_source(max, rate, target_rate);
    let take: usize = if needed <= have as u128 {
        needed as usize
    } else {
        have
    };
    let rest = loopback.waiting.split_off(take);
    assert(loopback.waiting@ =~= old_waiting.take(take as int));
    assert(rest@ =~= old_waiting.skip(take as int));
    let r = resample(&loopback.waiting, rate, target_rate, max, blend);
    assert(take == 0 ==> r@.len() == 0) by {
        assert(0 * (target_rate as nat) / (rate as nat) == 0) by (nonlinear_arith)
            requires
                rate > 0,
        ;
    }
    proof {
        if rate == target_rate {
            law_equal_rates_pass_samples_through(old_waiting.len(), rate, max as nat);
            assert(r@ =~= old_waiting.take(take as int));
        }
    }
    loopback.waiting = rest;
    r
}

// ---------------------------------------------------------------------------
// Laws
// ---------------------------------------------------------------------------

/// The buffer never holds more than its capacity, or one packet where that
/// alone is longer.
pub proof fn law_buffer_is_bounded<T>(waiting: Seq<T>, packet: Seq<T>, cap: nat)
    ensures
        after_packet(waiting, packet, cap).len() <= cap || after_packet(waiting, packet, cap).len()
            == packet.len(),
{
}

/// The newest samples stay: what waits after a packet is the end of all samples
/// in order, and as much of it as fits.
pub proof fn law_newest_samples_stay<T>(waiting: Seq<T>, packet: Seq<T>, cap: nat)
    ensures
        ({
            let all = waiting + packet;
            let now = after_packet(waiting, packet, cap);
            &&& now == all.skip(all.len() - now.len())
            &&& all.len() <= cap ==> now == all
            &&& packet.len() <= cap < all.len() ==> now.len() == cap
        }),
{
    let all = waiting + packet;
    let now = after_packet(waiting, packet, cap);
    assert(now =~= all.skip(all.len() - now.len()));
    assert(all.skip(0) =~= all);
}

/// At the device's own rate samples pass through: as many as asked for are wanted,
/// and as many as are taken come out. So the oldest `max` samples are handed out, or
/// all that wait, as they are.
pub proof fn law_equal_rates_pass_samples_through(waiting: nat, rate: u32, max: nat)
    requires
        rate > 0,
    ensures
        wanted(max, rate, rate) == max,
        taken_at(waiting, rate, rate, max) == lesser(max, waiting),
        yielded(taken_at(waiting, rate, rate, max), rate, rate, max) == lesser(max, waiting),
{
    let r = rate as int;
    let m = max as int;
    assert((m * r + r - 1) / r == m) by {
        vstd::arithmetic::div_mod::lemma_fundamental_div_mod_converse(m * r + (r - 1), r, m, r - 1);
    }
}

/// What is taken is enough and no more: it spans `max` samples at the other rate, and
/// one sample less would not.
pub proof fn law_wanted_is_least(max: nat, rate: u32, target_rate: u32)
    requires
        target_rate > 0,
    ensures
        wanted(max, rate, target_rate) * target_rate >= max * rate,
        max * rate > 0 ==> (wanted(max, rate, target_rate) - 1) * target_rate < max * rate,
{
    let t = target_rate as int;
    let a = max * rate;
    assert(a >= 0) by (nonlinear_arith)
        requires
            a == max * rate,
            max >= 0,
            rate >= 0,
    ;
    let w = (a + t - 1) / t;
    vstd::arithmetic::div_mod::lemma_fundamental_div_mod(a + t - 1, t);
    vstd::arithmetic::div_mod::lemma_div_pos_is_pos(a + t - 1, t);
    assert(w * t >= a && (w - 1) * t < a) by (nonlinear_arith)
        requires
            a + t - 1 == t * w + (a + t - 1) % t,
            0 <= (a + t - 1) % t < t,
            t > 0,
    ;
}

/// A minute of sound may wait. A packet that is longer than what may wait takes the place
/// of everything before it, whole.
pub proof fn law_a_minute_may_wait<T>(waiting: Seq<T>, packet: Seq<T>, rate: u32)
    ensures
        capacity(rate) == 60 * rate,
        packet.len() >= 60 * rate ==> after_packet(waiting, packet, capacity(rate)) == packet,
{
    if packet.len() >= 60 * rate {
        assert(waiting.skip(waiting.len() as int) + packet =~= packet);
    }
}

/// Sound of a device lasts as long at another rate: as many samples come of it as begin
/// within its time, and no more than asked for.
pub proof fn law_sound_lasts_as_long(n: nat, rate: u32, target_rate: u32, max: nat)
    requires
        rate > 0,
    ensures
        ({
            let k = yielded(n, rate, target_rate, max);
            &&& k <= max
            &&& k * rate <= n * target_rate
            &&& k < max ==> n * target_rate < (k + 1) * rate
        }),
{
    let a = n * target_rate;
    let r = rate as int;
    let q = a / r;
    vstd::arithmetic::div_mod::lemma_fundamental_div_mod(a, r);
    let k = yielded(n, rate, target_rate, max) as int;
    if rate == target_rate {
        assert(k * r <= a && (k < max ==> a < (k + 1) * r)) by (nonlinear_arith)
            requires
                a == n * r,
                r > 0,
                k == n || (k == max && k < n),
        ;
    } else {
        assert(k * r <= a && (k < max ==> a < (k + 1) * r)) by (nonlinear_arith)
            requires
                a == r * q + a % r,
                0 <= a % r < r,
                r > 0,
                k == q || (k == max && k < q),
        ;
    }
}

/// A sample at another rate stands at its own time: between the sample of the device just
/// before it, or at it, and the next one, and as far from the first as the part says.
pub proof fn law_samples_stand_at_their_time(i: int, n: nat, rate: u32, target_rate: u32)
    requires
        target_rate > 0,
        n > 0,
        0 <= i,
    ensures
        ({
            let left = sample_before(i, rate, target_rate);
            let part = part_behind(i, rate, target_rate);
            let right = sample_behind(i, n, rate, target_rate);
            &&& left * target_rate + part == i * rate
            &&& 0 <= part < target_rate
            &&& left + 1 < n ==> right == left + 1
            &&& left + 1 >= n ==> right == n - 1
        }),
{
    let t = target_rate as int;
    vstd::arithmetic::div_mod::lemma_fundamental_div_mod(i * rate, t);
    let left = sample_before(i, rate, target_rate);
    assert(left * t == t * left) by (nonlinear_arith);
}

/// What resampling gives: as many samples as the time allows and none more than asked
/// for, each blended out of the two samples of the device around its own time.
pub proof fn law_resampled_sound_is_the_sound<T, F: Fn(T, T, u32, u32) -> T>(
    source: Seq<T>,
    rate: u32,
    target_rate: u32,
    max: nat,
    blend: F,
    r: Seq<T>,
    i: int,
)
    requires
        rate > 0,
        target_rate > 0,
        is_resampled(source, rate, target_rate, max, blend, r),
        0 <= i < r.len(),
    ensures
        r.len() <= max,
        r.len() * rate <= source.len() * target_rate,
        r.len() < max ==> source.len() * target_rate < (r.len() + 1) * rate,
        rate == target_rate ==> r[i] == source[i],
        rate != target_rate ==> exists|left: int, right: int, part: u32|
            {
                &&& 0 <= left < source.len()
                &&& right == left + 1 || (right == left && left == source.len() - 1)
                &&& right < source.len()
                &&& left * target_rate + part == i * rate
                &&& part < target_rate
                &&& #[trigger] call_ensures(
                    blend,
                    (source[left], source[right], part, target_rate),
                    r[i],
                )
            },
{
    law_sound_lasts_as_long(source.len(), rate, target_rate, max);
    if rate != target_rate {
        lemma_sample_is_there(i, source.len() as int, rate as int, target_rate as int);
        law_samples_stand_at_their_time(i, source.len(), rate, target_rate);
        let left = sample_before(i, rate, target_rate);
        let right = sample_behind(i, source.len(), rate, target_rate);
        let part = part_behind(i, rate, target_rate) as u32;
        assert(call_ensures(blend, (source[left], source[right], part, target_rate), r[i]));
    }
}

/// Nothing is taken while a rate is not known or nothing is asked for, and never more than
/// waits or is needed.
pub proof fn law_no_more_is_taken_than_needed(
    waiting: nat,
    rate: u32,
    target_rate: u32,
    max: nat,
)
    ensures
        ({
            let k = taken_at(waiting, rate, target_rate, max);
            &&& rate == 0 || target_rate == 0 || max == 0 ==> k == 0
            &&& k <= waiting
            &&& rate > 0 && target_rate > 0 && max > 0 ==> k == waiting || k == wanted(
                max,
                rate,
                target_rate,
            )
            &&& rate > 0 && target_rate > 0 && max > 0 ==> k <= wanted(max, rate, target_rate)
        }),
{
}

/// A packet is read by its sample size, and as silence where it is silent, empty or of any
/// other size.
pub proof fn law_packets_are_read_by_their_size(
    silent: bool,
    has_data: bool,
    bits: u16,
    r: PacketFormat,
)
    requires
        call_ensures(packet_format, (silent, has_data, bits), r),
    ensures
        r == PacketFormat::Float32 <==> bits == 32 && has_data && !silent,
        r == PacketFormat::Int16 <==> bits == 16 && has_data && !silent,
{
}

/// Capturing begins with nothing waiting, and beginning again while it goes on loses
/// nothing. What came in is still there once it ended. Where nothing can be captured,
/// nothing ever waits.
pub proof fn law_a_capture_keeps_its_sound<T>(v: LoopbackView<T>, packet: Seq<T>)
    requires
        !v.supported ==> !v.capturing && v.waiting.len() == 0,
        packet.len() <= 60 * v.rate,
    ensures
        v.supported && !v.capturing ==> {
            let on = capture_begun(v);
            &&& on.capturing && on.waiting.len() == 0
            &&& packet_put(on, packet).waiting == packet
            &&& capture_begun(packet_put(on, packet)) == packet_put(on, packet)
            &&& capture_ended(packet_put(on, packet)).waiting == packet
        },
        v.supported && v.waiting.len() + packet.len() <= 60 * v.rate ==> packet_put(
            v,
            packet,
        ).waiting == v.waiting + packet,
        !v.supported ==> capture_begun(v) == v && packet_put(v, packet) == v && capture_ended(v)
            == v,
        !capture_ended(v).capturing && capture_ended(v).waiting == v.waiting,
        capture_ended(v).rate == v.rate && capture_ended(v).supported == v.supported,
        capture_begun(v).rate == v.rate && capture_begun(v).supported == v.supported,
        packet_put(v, packet).rate == v.rate && packet_put(v, packet).capturing == v.capturing,
{
    let none = Seq::<T>::empty();
    assert(none.skip(0) + packet =~= packet);
    assert(v.waiting.skip(0) + packet =~= v.waiting + packet);
}

/// What is taken is the oldest of what waits, and the rest goes on waiting in order.
pub proof fn law_the_oldest_samples_go_first<T>(v: LoopbackView<T>, target_rate: u32, max: nat)
    ensures
        ({
            let k = taken_at(v.waiting.len(), v.rate, target_rate, max) as int;
            let after = samples_gone(v, target_rate, max);
            &&& v.waiting == v.waiting.take(k) + after.waiting
            &&& after.rate == v.rate && after.capturing == v.capturing
            &&& after.supported == v.supported
        }),
{
    let k = taken_at(v.waiting.len(), v.rate, target_rate, max) as int;
    assert(v.waiting =~= v.waiting.take(k) + v.waiting.skip(k));
}

/// A device is noted with its rate, and one without channels changes nothing.
pub proof fn law_a_device_is_noted_by_its_rate<T>(v: LoopbackView<T>, channels: u16, rate: u32)
    ensures
        channels == 0 ==> device_noted(v, channels, rate) == v,
        channels > 0 ==> device_noted(v, channels, rate).rate == rate,
        device_noted(v, channels, rate).waiting == v.waiting,
        device_noted(v, channels, rate).capturing == v.capturing,
        device_noted(v, channels, rate).supported == v.supported,
{
}

} // verus!
