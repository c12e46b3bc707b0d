//! The Test view's two guarded force-feedback simulations: the step
//! tables, the kernel `ff_effect` encoding, capability-based skipping, the
//! per-step progress both front-ends render, and the sequence runner.
//!
//! Each step stores a logical [`Side`], never a raw evdev direction: the
//! direct-drive engine and the G923's classic engine disagree on which raw
//! value means which side, so the side is resolved against the playing
//! wheel's model only when the effect is built ([`resolve_direction`]).

use vstd::prelude::*;
use vstd::string::*;
use core::time::Duration;
use std::sync::atomic::{AtomicBool, Ordering};
use crate::device::WheelModel;
use crate::text::{dec, join, join_strs, u64_to_dec};

verus! {

// ---------------------------------------------------------------------------
// evdev force-feedback constants (`linux/input-event-codes.h`).
// ---------------------------------------------------------------------------

/// `EV_FF`, the evdev event type for force-feedback play/stop/gain events.
pub const EV_FF: u16 = 0x15;

/// `ff_effect.type` values built here.
pub const FF_PERIODIC: u16 = 0x51;

pub const FF_CONSTANT: u16 = 0x52;

pub const FF_SPRING: u16 = 0x53;

pub const FF_DAMPER: u16 = 0x55;

pub const FF_RAMP: u16 = 0x57;

pub const FF_SINE: u16 = 0x5a;

/// Not an effect type: the `EV_FF` code for the device-gain write.
pub const FF_GAIN: u16 = 0x60;

/// Highest legal bit `EVIOCGBIT(EV_FF, ...)` can report.
pub const FF_MAX: u16 = 0x7f;

/// Size of the union at the end of `struct ff_effect` (its largest
/// member, `ff_periodic_effect`, on a 64-bit kernel).
pub const FF_UNION_SIZE: usize = 32;

/// Size of the kernel's `struct ff_effect` on a 64-bit kernel.
pub const FF_EFFECT_SIZE: usize = 48;

/// Bytes an `EVIOCGBIT(EV_FF, ...)` capability query covers.
pub const FF_BITS_LEN: usize = 32;

/// Size of one `struct input_event` (64-bit ABI).
pub const EVENT_SIZE: usize = 24;

/// evdev direction "east": on the direct-drive engine, a positive level
/// pulls right.
pub const DIRECTION_EAST: u16 = 0x4000;

/// evdev direction "west": the opposite of [`DIRECTION_EAST`].
pub const DIRECTION_WEST: u16 = 0xC000;

/// ~30% of the `i16` force range, the level every step uses.
pub const SIM_LEVEL_30: i16 = 9830;

/// ~30% of the `u16` saturation range, the torque cap of the condition
/// (spring/damper) steps.
pub const SIM_SATURATION_30: u16 = 19661;

// ---------------------------------------------------------------------------
// Byte encodings.
// ---------------------------------------------------------------------------

/// Little-endian bytes of a 16-bit value.
pub open spec fn le16(v: u16) -> Seq<u8> {
    seq![(v % 256) as u8, (v / 256) as u8]
}

/// Little-endian bytes of a 32-bit value.
pub open spec fn le32(v: u32) -> Seq<u8> {
    seq![(v % 256) as u8, ((v / 256) % 256) as u8, ((v / 65536) % 256) as u8, (v / 16777216) as u8]
}

pub open spec fn zeros(n: nat) -> Seq<u8> {
    Seq::new(n, |i: int| 0u8)
}

fn le16_bytes(v: u16) -> (r: (u8, u8))
    ensures
        seq![r.0, r.1] == le16(v),
{
    ((v % 256) as u8, (v / 256) as u8)
}

// ---------------------------------------------------------------------------
// Directions.
// ---------------------------------------------------------------------------

/// Which side of center a directional step pulls the wheel toward,
/// independent of the force engine.
#[derive(Debug, Clone, Copy, PartialEq, Eq, Structural)]
pub enum Side {
    Right,
    Left,
    /// Condition effects (spring/damper): direction is meaningless.
    Neither,
}

/// The raw evdev direction for `side` on a wheel of `model`. The
/// direct-drive engine (and `Unknown`, treated as direct-drive) takes east
/// as right; the G923's classic engine turns the other way for the same
/// value, so its sides swap.
pub open spec fn direction_for(side: Side, model: WheelModel) -> u16 {
    match side {
        Side::Neither => 0,
        Side::Right => if model == WheelModel::G923 {
            DIRECTION_WEST
        } else {
            DIRECTION_EAST
        },
        Side::Left => if model == WheelModel::G923 {
            DIRECTION_EAST
        } else {
            DIRECTION_WEST
        },
    }
}

/// Sides resolve to evdev directions half a turn apart: on a direct-drive
/// wheel (or one of unknown model) right is east (0x4000) and left west
/// (0xC000); the G923 swaps the two; a condition effect has direction 0.
pub proof fn lemma_sides_resolve(side: Side, model: WheelModel)
    ensures
        model != WheelModel::G923 ==> direction_for(Side::Right, model) == 0x4000u16 && direction_for(
            Side::Left,
            model,
        ) == 0xC000u16,
        direction_for(Side::Right, WheelModel::G923) == direction_for(Side::Left, WheelModel::Rs50),
        direction_for(Side::Left, WheelModel::G923) == direction_for(Side::Right, WheelModel::Rs50),
        direction_for(Side::Neither, model) == 0,
{
}

/// Resolve `side` to the raw `ff_effect.direction` for a wheel of `model`.
pub fn resolve_direction(side: Side, model: WheelModel) -> (r: u16)
    ensures
        r == direction_for(side, model),
{
    match (side, model) {
        (Side::Neither, _) => 0,
        (Side::Right, WheelModel::G923) => DIRECTION_WEST,
        (Side::Right, _) => DIRECTION_EAST,
        (Side::Left, WheelModel::G923) => DIRECTION_EAST,
        (Side::Left, _) => DIRECTION_WEST,
    }
}

// ---------------------------------------------------------------------------
// Countdown.
// ---------------------------------------------------------------------------

/// The time a step's playback takes, for `ms` milliseconds.
pub uninterp spec fn millis_duration(ms: u64) -> Duration;

/// `Duration::from_millis`. A `Duration` is opaque here, so its result is
/// named rather than described: the same count of milliseconds always
/// gives the same duration, and nothing more is claimed.
#[verifier::external_body]
fn duration_from_millis(ms: u64) -> (r: Duration)
    ensures
        r == millis_duration(ms),
{
    Duration::from_millis(ms)
}

/// The lead-in before every step, the first included: `ticks` ticks
/// counting down to 1, each held for `tick`.
#[derive(Debug, Clone, Copy, PartialEq, Eq)]
pub struct Countdown {
    pub ticks: u64,
    pub tick: Duration,
}

impl Countdown {
    /// No countdown at all: a step plays as soon as it is announced.
    pub fn none() -> (r: Countdown)
        ensures
            r.ticks == 0,
            r.tick == millis_duration(0),
    {
        Countdown { ticks: 0, tick: duration_from_millis(0) }
    }
}

/// The countdown both front-ends run: 3 ticks of one second.
pub fn step_countdown() -> (r: Countdown)
    ensures
        r.ticks == 3,
        r.tick == millis_duration(1000),
{
    Countdown { ticks: 3, tick: duration_from_millis(1000) }
}

// ---------------------------------------------------------------------------
// `struct ff_effect` (`linux/input.h`).
// ---------------------------------------------------------------------------

/// The trailing union of the kernel's `struct ff_effect`, as its bytes.
#[derive(Debug, Clone, Copy)]
pub struct FfUnion(pub [u8; FF_UNION_SIZE]);

/// The kernel's `struct ff_effect`, field for field: type, id, direction,
/// trigger (button, interval), replay (length, delay), then the union.
/// [`FfEffect::to_bytes`] lays it out as the kernel reads it.
#[derive(Debug, Clone, Copy)]
pub struct FfEffect {
    pub type_: u16,
    pub id: i16,
    pub direction: u16,
    pub trigger_button: u16,
    pub trigger_interval: u16,
    pub replay_length: u16,
    pub replay_delay: u16,
    pub u: FfUnion,
}

/// The 48 bytes of `struct ff_effect` on a 64-bit kernel: seven 16-bit
/// fields, two bytes of padding, then the 8-byte-aligned union at 16.
pub open spec fn effect_bytes(e: FfEffect) -> Seq<u8> {
    le16(e.type_) + le16(e.id as u16) + le16(e.direction) + le16(e.trigger_button) + le16(
        e.trigger_interval,
    ) + le16(e.replay_length) + le16(e.replay_delay) + zeros(2) + e.u.0@
}

impl FfEffect {
    /// The kernel ABI bytes, as `EVIOCSFF` takes them.
    pub fn to_bytes(&self) -> (r: [u8; FF_EFFECT_SIZE])
        ensures
            r@ == effect_bytes(*self),
    {
        let mut b = [0u8; FF_EFFECT_SIZE];
        let fields: [u16; 7] = [
            self.type_,
            self.id as u16,
            self.direction,
            self.trigger_button,
            self.trigger_interval,
            self.replay_length,
            self.replay_delay,
        ];
        let mut k: usize = 0;
        while k < 7
            invariant
                k <= 7,
                fields@ == seq![
                    self.type_,
                    self.id as u16,
                    self.direction,
                    self.trigger_button,
                    self.trigger_interval,
                    self.replay_length,
                    self.replay_delay,
                ],
                b@.len() == FF_EFFECT_SIZE,
                forall|j: int| 0 <= j < k ==> b@[2 * j] == le16(fields@[j])[0] && b@[2 * j + 1]
                    == le16(fields@[j])[1],
                forall|j: int| 2 * k <= j < FF_EFFECT_SIZE ==> b@[j] == 0,
            decreases 7 - k,
        {
            let (lo, hi) = le16_bytes(fields[k]);
            b[2 * k] = lo;
            b[2 * k + 1] = hi;
            k = k + 1;
        }
        let mut i: usize = 0;
        while i < FF_UNION_SIZE
            invariant
                i <= FF_UNION_SIZE,
                b@.len() == FF_EFFECT_SIZE,
                forall|j: int| 0 <= j < 7 ==> b@[2 * j] == le16(fields@[j])[0] && b@[2 * j + 1]
                    == le16(fields@[j])[1],
                b@[14] == 0 && b@[15] == 0,
                forall|j: int| 0 <= j < i ==> b@[16 + j] == self.u.0@[j],
                fields@ == seq![
                    self.type_,
                    self.id as u16,
                    self.direction,
                    self.trigger_button,
                    self.trigger_interval,
                    self.replay_length,
                    self.replay_delay,
                ],
            decreases FF_UNION_SIZE - i,
        {
            b[16 + i] = self.u.0[i];
            i = i + 1;
        }
        assert(b@ =~= effect_bytes(*self)) by {
            assert forall|j: int| 0 <= j < 7 implies b@[2 * j] == le16(fields@[j])[0] && b@[2 * j
                + 1] == le16(fields@[j])[1] by {}
        }
        b
    }
}

/// One `struct input_event` carrying an `EV_FF` event: zeroed timestamp
/// (the kernel fills it for written events), type, code, value.
pub open spec fn ff_event_bytes(code: u16, value: i32) -> Seq<u8> {
    zeros(16) + le16(EV_FF) + le16(code) + le32(value as u32)
}

/// Encode one `EV_FF` input event.
pub fn encode_ff_event(code: u16, value: i32) -> (r: [u8; EVENT_SIZE])
    ensures
        r@ == ff_event_bytes(code, value),
{
    let mut b = [0u8; EVENT_SIZE];
    let (t0, t1) = le16_bytes(EV_FF);
    let (c0, c1) = le16_bytes(code);
    let v = value as u32;
    b[16] = t0;
    b[17] = t1;
    b[18] = c0;
    b[19] = c1;
    b[20] = (v % 256) as u8;
    b[21] = ((v / 256) % 256) as u8;
    b[22] = ((v / 65536) % 256) as u8;
    b[23] = (v / 16777216) as u8;
    assert(b@ =~= ff_event_bytes(code, value));
    b
}

/// Whether the capability bitmap `bits` marks `ff_type` supported.
pub open spec fn type_supported(bits: Seq<u8>, ff_type: u16) -> bool {
    let idx = ff_type as int;
    &&& idx / 8 < bits.len()
    &&& bits[idx / 8] & (1u8 << ((idx % 8) as u8)) != 0
}

/// Whether `bits` (an `EVIOCGBIT(EV_FF, ...)` result, any length) marks
/// `ff_type` as supported.
pub fn ff_type_supported(bits: &[u8], ff_type: u16) -> (r: bool)
    ensures
        r == type_supported(bits@, ff_type),
{
    let idx = ff_type as usize;
    if idx / 8 < bits.len() {
        let shift = (idx % 8) as u8;
        bits[idx / 8] & (1u8 << shift) != 0
    } else {
        false
    }
}

// ---------------------------------------------------------------------------
// Step table.
// ---------------------------------------------------------------------------

/// One playable effect's kind and parameters.
#[derive(Debug, Clone, Copy, PartialEq, Eq, Structural)]
pub enum StepEffect {
    /// A steady pull.
    Constant { level: i16 },
    /// Force changing linearly over the step.
    Ramp { start: i16, end: i16 },
    /// A centering spring: both coefficients positive, or it pushes away.
    Spring { right_coeff: i16, left_coeff: i16, right_sat: u16, left_sat: u16 },
    /// Resistance proportional to turning speed.
    Damper { right_coeff: i16, left_coeff: i16, right_sat: u16, left_sat: u16 },
    /// A waveform vibration.
    Periodic { waveform: u16, period_ms: u16, magnitude: i16 },
}

pub open spec fn effect_type(e: StepEffect) -> u16 {
    match e {
        StepEffect::Constant { .. } => FF_CONSTANT,
        StepEffect::Ramp { .. } => FF_RAMP,
        StepEffect::Spring { .. } => FF_SPRING,
        StepEffect::Damper { .. } => FF_DAMPER,
        StepEffect::Periodic { .. } => FF_PERIODIC,
    }
}

impl StepEffect {
    /// The `ff_effect.type` this variant uploads as.
    pub fn ff_type(&self) -> (r: u16)
        ensures
            r == effect_type(*self),
    {
        match self {
            StepEffect::Constant { .. } => FF_CONSTANT,
            StepEffect::Ramp { .. } => FF_RAMP,
            StepEffect::Spring { .. } => FF_SPRING,
            StepEffect::Damper { .. } => FF_DAMPER,
            StepEffect::Periodic { .. } => FF_PERIODIC,
        }
    }
}

/// One step of a test sequence.
#[derive(Debug, Clone, Copy, PartialEq, Eq)]
pub struct SimStep {
    /// Shown while the step plays.
    pub label: &'static str,
    pub effect: StepEffect,
    /// How long the step plays (`ff_effect.replay.length`).
    pub duration_ms: u16,
    /// The side it pulls toward; [`Side::Neither`] for condition effects.
    pub direction: Side,
}

/// The union bytes for `e`: each variant's fields in the kernel's order,
/// little-endian, zero after.
pub open spec fn union_bytes(e: StepEffect) -> Seq<u8> {
    match e {
        StepEffect::Constant { level } => le16(level as u16) + zeros(30),
        StepEffect::Ramp { start, end } => le16(start as u16) + le16(end as u16) + zeros(28),
        StepEffect::Spring { right_coeff, left_coeff, right_sat, left_sat } => le16(right_sat)
            + le16(left_sat) + le16(right_coeff as u16) + le16(left_coeff as u16) + zeros(24),
        StepEffect::Damper { right_coeff, left_coeff, right_sat, left_sat } => le16(right_sat)
            + le16(left_sat) + le16(right_coeff as u16) + le16(left_coeff as u16) + zeros(24),
        StepEffect::Periodic { waveform, period_ms, magnitude } => le16(waveform) + le16(period_ms)
            + le16(magnitude as u16) + zeros(26),
    }
}

/// Whether `e` is the effect uploaded for `step` on a wheel of `model`: a
/// fresh upload (id -1), the step's type and length, its side resolved for
/// the model, no trigger, no delay, and the step's parameters in the union.
pub open spec fn is_effect_for(e: FfEffect, step: SimStep, model: WheelModel) -> bool {
    &&& e.type_ == effect_type(step.effect)
    &&& e.id == -1
    &&& e.direction == direction_for(step.direction, model)
    &&& e.trigger_button == 0
    &&& e.trigger_interval == 0
    &&& e.replay_length == step.duration_ms
    &&& e.replay_delay == 0
    &&& e.u.0@ == union_bytes(step.effect)
}

/// Write the 16-bit values `vals` little-endian at the start of a zeroed
/// union.
fn union_of(vals: &[u16]) -> (r: [u8; FF_UNION_SIZE])
    requires
        vals@.len() <= 4,
    ensures
        forall|j: int| 0 <= j < vals@.len() ==> r@[2 * j] == le16(vals@[j])[0] && r@[2 * j + 1]
            == le16(vals@[j])[1],
        forall|j: int| 2 * vals@.len() <= j < FF_UNION_SIZE ==> r@[j] == 0,
{
    let mut u = [0u8; FF_UNION_SIZE];
    let mut k: usize = 0;
    while k < vals.len()
        invariant
            k <= vals@.len() <= 4,
            u@.len() == FF_UNION_SIZE,
            forall|j: int| 0 <= j < k ==> u@[2 * j] == le16(vals@[j])[0] && u@[2 * j + 1] == le16(
                vals@[j],
            )[1],
            forall|j: int| 2 * k <= j < FF_UNION_SIZE ==> u@[j] == 0,
        decreases vals@.len() - k,
    {
        let (lo, hi) = le16_bytes(vals[k]);
        u[2 * k] = lo;
        u[2 * k + 1] = hi;
        k = k + 1;
    }
    u
}

/// The union bytes for `e`.
fn build_union(e: &StepEffect) -> (r: [u8; FF_UNION_SIZE])
    ensures
        r@ == union_bytes(*e),
{
    let vals: Vec<u16> = match *e {
        StepEffect::Constant { level } => vec![level as u16],
        StepEffect::Ramp { start, end } => vec![start as u16, end as u16],
        StepEffect::Spring { right_coeff, left_coeff, right_sat, left_sat } => vec![
            right_sat,
            left_sat,
            right_coeff as u16,
            left_coeff as u16,
        ],
        StepEffect::Damper { right_coeff, left_coeff, right_sat, left_sat } => vec![
            right_sat,
            left_sat,
            right_coeff as u16,
            left_coeff as u16,
        ],
        StepEffect::Periodic { waveform, period_ms, magnitude } => vec![
            waveform,
            period_ms,
            magnitude as u16,
        ],
    };
    let u = union_of(vals.as_slice());
    assert(u@ =~= union_bytes(*e));
    u
}

/// Build the kernel `ff_effect` for `step` on a wheel of `model`.
pub fn build_ff_effect(step: &SimStep, model: WheelModel) -> (r: FfEffect)
    ensures
        is_effect_for(r, *step, model),
{
    FfEffect {
        type_: step.effect.ff_type(),
        id: -1,
        direction: resolve_direction(step.direction, model),
        trigger_button: 0,
        trigger_interval: 0,
        replay_length: step.duration_ms,
        replay_delay: 0,
        u: FfUnion(build_union(&step.effect)),
    }
}

/// The 16-bit value stored little-endian at `off` of `b`.
pub open spec fn u16_le_at(b: Seq<u8>, off: int) -> int {
    b[off] as int + 256 * b[off + 1] as int
}

/// `b` holds only zeros from `from` to its end.
pub open spec fn zero_from(b: Seq<u8>, from: int) -> bool {
    forall|j: int| from <= j < b.len() ==> #[trigger] b[j] == 0
}

proof fn lemma_le16_value(v: u16)
    ensures
        u16_le_at(le16(v), 0) == v,
{
    assert((v % 256) as int + 256 * (v / 256) as int == v) by (nonlinear_arith);
}

/// The union of an uploaded effect holds the step's parameters where the
/// kernel reads them, each a little-endian 16-bit value, and zeros after:
/// a constant force's level at 0; a ramp's start level at 0 and end level
/// at 2 (`ff_ramp_effect`); a condition's right and left saturation at 0
/// and 2 and right and left coefficient at 4 and 6 (`ff_condition_effect`);
/// a periodic effect's waveform, period and magnitude at 0, 2 and 4
/// (`ff_periodic_effect`).
pub proof fn lemma_union_layout(e: FfEffect, step: SimStep, model: WheelModel)
    requires
        is_effect_for(e, step, model),
    ensures
        e.u.0@.len() == FF_UNION_SIZE,
        ({
            let u = e.u.0@;
            match step.effect {
                StepEffect::Constant { level } => u16_le_at(u, 0) == level as u16 && zero_from(u, 2),
                StepEffect::Ramp { start, end } => {
                    &&& u16_le_at(u, 0) == start as u16
                    &&& u16_le_at(u, 2) == end as u16
                    &&& zero_from(u, 4)
                },
                StepEffect::Spring { right_coeff, left_coeff, right_sat, left_sat } => {
                    &&& u16_le_at(u, 0) == right_sat
                    &&& u16_le_at(u, 2) == left_sat
                    &&& u16_le_at(u, 4) == right_coeff as u16
                    &&& u16_le_at(u, 6) == left_coeff as u16
                    &&& zero_from(u, 8)
                },
                StepEffect::Damper { right_coeff, left_coeff, right_sat, left_sat } => {
                    &&& u16_le_at(u, 0) == right_sat
                    &&& u16_le_at(u, 2) == left_sat
                    &&& u16_le_at(u, 4) == right_coeff as u16
                    &&& u16_le_at(u, 6) == left_coeff as u16
                    &&& zero_from(u, 8)
                },
                StepEffect::Periodic { waveform, period_ms, magnitude } => {
                    &&& u16_le_at(u, 0) == waveform
                    &&& u16_le_at(u, 2) == period_ms
                    &&& u16_le_at(u, 4) == magnitude as u16
                    &&& zero_from(u, 6)
                },
            }
        }),
{
    let u = e.u.0@;
    match step.effect {
        StepEffect::Constant { level } => {
            lemma_le16_value(level as u16);
        },
        StepEffect::Ramp { start, end } => {
            lemma_le16_value(start as u16);
            lemma_le16_value(end as u16);
            assert(u16_le_at(u, 2) == u16_le_at(le16(end as u16), 0));
        },
        StepEffect::Spring { right_coeff, left_coeff, right_sat, left_sat } => {
            lemma_le16_value(right_sat);
            lemma_le16_value(left_sat);
            lemma_le16_value(right_coeff as u16);
            lemma_le16_value(left_coeff as u16);
            assert(u16_le_at(u, 2) == u16_le_at(le16(left_sat), 0));
            assert(u16_le_at(u, 4) == u16_le_at(le16(right_coeff as u16), 0));
            assert(u16_le_at(u, 6) == u16_le_at(le16(left_coeff as u16), 0));
        },
        StepEffect::Damper { right_coeff, left_coeff, right_sat, left_sat } => {
            lemma_le16_value(right_sat);
            lemma_le16_value(left_sat);
            lemma_le16_value(right_coeff as u16);
            lemma_le16_value(left_coeff as u16);
            assert(u16_le_at(u, 2) == u16_le_at(le16(left_sat), 0));
            assert(u16_le_at(u, 4) == u16_le_at(le16(right_coeff as u16), 0));
            assert(u16_le_at(u, 6) == u16_le_at(le16(left_coeff as u16), 0));
        },
        StepEffect::Periodic { waveform, period_ms, magnitude } => {
            lemma_le16_value(waveform);
            lemma_le16_value(period_ms);
            lemma_le16_value(magnitude as u16);
            assert(u16_le_at(u, 2) == u16_le_at(le16(period_ms), 0));
            assert(u16_le_at(u, 4) == u16_le_at(le16(magnitude as u16), 0));
        },
    }
}

/// The 32-bit value stored little-endian at `off` of `b`.
pub open spec fn u32_le_at(b: Seq<u8>, off: int) -> int {
    b[off] as int + 256 * b[off + 1] as int + 65536 * b[off + 2] as int + 16777216 * b[off + 3] as int
}

/// `struct ff_effect` as the kernel reads it: type at 0, id at 2,
/// direction at 4, trigger button and interval at 6 and 8, replay length
/// and delay at 10 and 12, each a little-endian 16-bit value; two bytes of
/// padding; the union's 32 bytes from 16.
pub proof fn lemma_effect_layout(e: FfEffect)
    ensures
        effect_bytes(e).len() == 48,
        u16_le_at(effect_bytes(e), 0) == e.type_,
        u16_le_at(effect_bytes(e), 2) == e.id as u16,
        u16_le_at(effect_bytes(e), 4) == e.direction,
        u16_le_at(effect_bytes(e), 6) == e.trigger_button,
        u16_le_at(effect_bytes(e), 8) == e.trigger_interval,
        u16_le_at(effect_bytes(e), 10) == e.replay_length,
        u16_le_at(effect_bytes(e), 12) == e.replay_delay,
        effect_bytes(e)[14] == 0 && effect_bytes(e)[15] == 0,
        effect_bytes(e).subrange(16, 48) == e.u.0@,
{
    let b = effect_bytes(e);
    lemma_le16_value(e.type_);
    lemma_le16_value(e.id as u16);
    lemma_le16_value(e.direction);
    lemma_le16_value(e.trigger_button);
    lemma_le16_value(e.trigger_interval);
    lemma_le16_value(e.replay_length);
    lemma_le16_value(e.replay_delay);
    assert(u16_le_at(b, 2) == u16_le_at(le16(e.id as u16), 0));
    assert(u16_le_at(b, 4) == u16_le_at(le16(e.direction), 0));
    assert(u16_le_at(b, 6) == u16_le_at(le16(e.trigger_button), 0));
    assert(u16_le_at(b, 8) == u16_le_at(le16(e.trigger_interval), 0));
    assert(u16_le_at(b, 10) == u16_le_at(le16(e.replay_length), 0));
    assert(u16_le_at(b, 12) == u16_le_at(le16(e.replay_delay), 0));
    assert(b.subrange(16, 48) =~= e.u.0@);
}

/// An `EV_FF` input event as the kernel reads it: a zero timestamp in the
/// first 16 bytes, then type `EV_FF` (0x15) and the code as little-endian
/// 16-bit values, then the value as a little-endian 32-bit one.
pub proof fn lemma_event_layout(code: u16, value: i32)
    ensures
        ff_event_bytes(code, value).len() == 24,
        forall|j: int| 0 <= j < 16 ==> #[trigger] ff_event_bytes(code, value)[j] == 0,
        u16_le_at(ff_event_bytes(code, value), 16) == 0x15,
        u16_le_at(ff_event_bytes(code, value), 18) == code,
        u32_le_at(ff_event_bytes(code, value), 20) == value as u32,
{
    let b = ff_event_bytes(code, value);
    lemma_le16_value(EV_FF);
    lemma_le16_value(code);
    assert(u16_le_at(b, 16) == u16_le_at(le16(EV_FF), 0));
    assert(u16_le_at(b, 18) == u16_le_at(le16(code), 0));
    let v = value as u32;
    assert(u32_le_at(b, 20) == u32_le_at(le32(v), 0));
    assert((v % 256) as int + 256 * ((v / 256) % 256) as int + 65536 * ((v / 65536) % 256) as int
        + 16777216 * (v / 16777216) as int == v) by (nonlinear_arith);
}

/// One 0.45 s constant pulse toward `side` at the standard level.
fn pulse(label: &'static str, side: Side) -> (r: SimStep)
    ensures
        r == pulse_step(label, side),
{
    SimStep { label, effect: StepEffect::Constant { level: SIM_LEVEL_30 }, duration_ms: 450, direction: side }
}

pub open spec fn pulse_step(label: &'static str, side: Side) -> SimStep {
    SimStep { label, effect: StepEffect::Constant { level: SIM_LEVEL_30 }, duration_ms: 450, direction: side }
}

pub open spec fn condition_spring() -> StepEffect {
    StepEffect::Spring {
        right_coeff: SIM_LEVEL_30,
        left_coeff: SIM_LEVEL_30,
        right_sat: SIM_SATURATION_30,
        left_sat: SIM_SATURATION_30,
    }
}

pub open spec fn condition_damper() -> StepEffect {
    StepEffect::Damper {
        right_coeff: SIM_LEVEL_30,
        left_coeff: SIM_LEVEL_30,
        right_sat: SIM_SATURATION_30,
        left_sat: SIM_SATURATION_30,
    }
}

/// The force-feedback sequence: six short constant pulses alternating
/// left and right (they rock the wheel around where it started instead of
/// walking it to an end stop), then a rising ramp, a centering spring,
/// damper resistance and a sine vibration.
pub open spec fn force_table() -> Seq<SimStep> {
    seq![
        pulse_step("Constant force, left pulse", Side::Left),
        pulse_step("Constant force, right pulse", Side::Right),
        pulse_step("Constant force, left pulse", Side::Left),
        pulse_step("Constant force, right pulse", Side::Right),
        pulse_step("Constant force, left pulse", Side::Left),
        pulse_step("Constant force, right pulse", Side::Right),
        SimStep {
            label: "Ramp, rising force",
            effect: StepEffect::Ramp { start: 0, end: SIM_LEVEL_30 },
            duration_ms: 1500,
            direction: Side::Right,
        },
        SimStep {
            label: "Spring / centering - turn the wheel and feel it pull back toward center",
            effect: condition_spring(),
            duration_ms: 2500,
            direction: Side::Neither,
        },
        SimStep {
            label: "Damper - turn the wheel and feel the resistance to motion",
            effect: condition_damper(),
            duration_ms: 2500,
            direction: Side::Neither,
        },
        SimStep {
            label: "Sine vibration",
            effect: StepEffect::Periodic { waveform: FF_SINE, period_ms: 25, magnitude: SIM_LEVEL_30 },
            duration_ms: 1500,
            direction: Side::Right,
        },
    ]
}

pub open spec fn texture_step(label: &'static str, period_ms: u16) -> SimStep {
    SimStep {
        label,
        effect: StepEffect::Periodic { waveform: FF_SINE, period_ms, magnitude: SIM_LEVEL_30 },
        duration_ms: 2000,
        direction: Side::Right,
    }
}

/// The TrueForce texture sequence: sine vibrations rising from about 10 Hz
/// to 100 Hz at one moderate amplitude.
pub open spec fn texture_table() -> Seq<SimStep> {
    seq![
        texture_step("Low rumble (~10 Hz) - a slow, heavy pulse", 100),
        texture_step("Buzz (~25 Hz) - a coarse, gritty texture", 40),
        texture_step("Mid-high texture (~50 Hz) - a finer grain", 20),
        texture_step("High-frequency texture (~100 Hz) - a fine, tight buzz", 10),
    ]
}

fn texture(label: &'static str, period_ms: u16) -> (r: SimStep)
    ensures
        r == texture_step(label, period_ms),
{
    SimStep {
        label,
        effect: StepEffect::Periodic { waveform: FF_SINE, period_ms, magnitude: SIM_LEVEL_30 },
        duration_ms: 2000,
        direction: Side::Right,
    }
}

/// The force-feedback sequence.
pub fn force_sequence() -> (r: Vec<SimStep>)
    ensures
        r@ == force_table(),
{
    let mut v = Vec::new();
    v.push(pulse("Constant force, left pulse", Side::Left));
    v.push(pulse("Constant force, right pulse", Side::Right));
    v.push(pulse("Constant force, left pulse", Side::Left));
    v.push(pulse("Constant force, right pulse", Side::Right));
    v.push(pulse("Constant force, left pulse", Side::Left));
    v.push(pulse("Constant force, right pulse", Side::Right));
    v.push(
        SimStep {
            label: "Ramp, rising force",
            effect: StepEffect::Ramp { start: 0, end: SIM_LEVEL_30 },
            duration_ms: 1500,
            direction: Side::Right,
        },
    );
    v.push(
        SimStep {
            label: "Spring / centering - turn the wheel and feel it pull back toward center",
            effect: StepEffect::Spring {
                right_coeff: SIM_LEVEL_30,
                left_coeff: SIM_LEVEL_30,
                right_sat: SIM_SATURATION_30,
                left_sat: SIM_SATURATION_30,
            },
            duration_ms: 2500,
            direction: Side::Neither,
        },
    );
    v.push(
        SimStep {
            label: "Damper - turn the wheel and feel the resistance to motion",
            effect: StepEffect::Damper {
                right_coeff: SIM_LEVEL_30,
                left_coeff: SIM_LEVEL_30,
                right_sat: SIM_SATURATION_30,
                left_sat: SIM_SATURATION_30,
            },
            duration_ms: 2500,
            direction: Side::Neither,
        },
    );
    v.push(
        SimStep {
            label: "Sine vibration",
            effect: StepEffect::Periodic { waveform: FF_SINE, period_ms: 25, magnitude: SIM_LEVEL_30 },
            duration_ms: 1500,
            direction: Side::Right,
        },
    );
    assert(v@ =~= force_table());
    v
}

/// The TrueForce texture sequence.
pub fn texture_sequence() -> (r: Vec<SimStep>)
    ensures
        r@ == texture_table(),
{
    let mut v = Vec::new();
    v.push(texture("Low rumble (~10 Hz) - a slow, heavy pulse", 100));
    v.push(texture("Buzz (~25 Hz) - a coarse, gritty texture", 40));
    v.push(texture("Mid-high texture (~50 Hz) - a finer grain", 20));
    v.push(texture("High-frequency texture (~100 Hz) - a fine, tight buzz", 10));
    assert(v@ =~= texture_table());
    v
}

/// Which sequence a confirmed simulation plays.
#[derive(Debug, Clone, Copy, PartialEq, Eq, Structural)]
pub enum SimKind {
    Force,
    Texture,
}

impl SimKind {
    pub fn label(self) -> (r: &'static str)
        ensures
            r@ == (match self {
                SimKind::Force => "force feedback"@,
                SimKind::Texture => "TrueForce texture"@,
            }),
    {
        match self {
            SimKind::Force => "force feedback",
            SimKind::Texture => "TrueForce texture",
        }
    }

    /// The step table this kind plays, in order.
    pub fn steps(self) -> (r: Vec<SimStep>)
        ensures
            r@ == (match self {
                SimKind::Force => force_table(),
                SimKind::Texture => texture_table(),
            }),
    {
        match self {
            SimKind::Force => force_sequence(),
            SimKind::Texture => texture_sequence(),
        }
    }
}

/// The status line shown while `step`, 0-based row `row` of `total`, plays:
/// `step {row + 1}/{total}: {label}`.
pub fn step_status_text(row: usize, total: usize, step: &SimStep) -> (r: String)
    requires
        row < usize::MAX,
    ensures
        r@ == "step "@ + dec((row + 1) as nat) + "/"@ + dec(total as nat) + ": "@ + step.label@,
{
    let mut s = String::from_str("step ");
    let n = u64_to_dec((row + 1) as u64);
    s.append(n.as_str());
    s.append("/");
    let t = u64_to_dec(total as u64);
    s.append(t.as_str());
    s.append(": ");
    s.append(step.label);
    s
}

// ---------------------------------------------------------------------------
// Per-step progress.
// ---------------------------------------------------------------------------

/// One step's state in a rendered plan.
#[derive(Debug, Clone, Copy, PartialEq, Eq, Structural)]
pub enum StepState {
    Pending,
    /// Counting down before the step plays.
    Countdown(u64),
    Playing,
    Done,
    Skipped,
}

impl StepState {
    /// A short word for the state, never a color alone: `pending`, `3...`
    /// while counting down, `playing`, `done`, `skipped`.
    pub fn status_text(&self) -> (r: String)
        ensures
            r@ == (match *self {
                StepState::Pending => "pending"@,
                StepState::Countdown(secs) => dec(secs as nat) + "..."@,
                StepState::Playing => "playing"@,
                StepState::Done => "done"@,
                StepState::Skipped => "skipped"@,
            }),
    {
        match *self {
            StepState::Pending => String::from_str("pending"),
            StepState::Countdown(secs) => {
                let mut s = u64_to_dec(secs);
                s.append("...");
                s
            },
            StepState::Playing => String::from_str("playing"),
            StepState::Done => String::from_str("done"),
            StepState::Skipped => String::from_str("skipped"),
        }
    }
}

/// What a running sequence reports, in order: the skip list once (if any
/// step is unsupported), then a countdown, a start and a finish per
/// runnable step. Rows index the step table the run was given.
#[derive(Debug, Clone, Copy)]
pub enum SequenceEvent<'a> {
    /// Every unsupported step's row and label.
    Skipped(&'a [(usize, &'static str)]),
    /// Row `row` is counting down; `seconds_left` ticks down to 1.
    Countdown { row: usize, total: usize, step: &'a SimStep, seconds_left: u64 },
    /// Row `row` is now playing.
    Step { row: usize, total: usize, step: &'a SimStep },
    /// Row `row` finished (played out, or stopped and erased by a cancel).
    Done { row: usize, total: usize },
}

/// The live progress of a plan: one state per step, and the active row.
#[derive(Debug, Clone, PartialEq, Eq)]
pub struct SequenceProgress {
    pub states: Vec<StepState>,
    pub current: Option<usize>,
}

/// Whether the skip list `rows` names row `i`.
pub open spec fn names_row(rows: Seq<(usize, &'static str)>, i: int) -> bool {
    exists|j: int| 0 <= j < rows.len() && rows[j].0 == i
}

/// `states` with row `row` set to `s`, when there is such a row.
pub open spec fn set_row(states: Seq<StepState>, row: usize, s: StepState) -> Seq<StepState> {
    if row < states.len() {
        states.update(row as int, s)
    } else {
        states
    }
}

impl SequenceProgress {
    /// One `Pending` row per step, nothing active.
    pub fn new(steps: &[SimStep]) -> (r: SequenceProgress)
        ensures
            r.states@ == Seq::new(steps@.len(), |i: int| StepState::Pending),
            r.current is None,
    {
        let mut states = Vec::new();
        let mut i: usize = 0;
        while i < steps.len()
            invariant
                i <= steps@.len(),
                states@ == Seq::new(i as nat, |k: int| StepState::Pending),
            decreases steps@.len() - i,
        {
            states.push(StepState::Pending);
            i = i + 1;
            assert(states@ =~= Seq::new(i as nat, |k: int| StepState::Pending));
        }
        SequenceProgress { states, current: None }
    }

    /// Fold one event in. Rows outside the plan are ignored. A row, once
    /// past `Pending`, never returns to it.
    pub fn apply(&mut self, event: &SequenceEvent)
        ensures
            final(self).states@.len() == old(self).states@.len(),
            forall|i: int|
                0 <= i < old(self).states@.len() && old(self).states@[i] != StepState::Pending
                    ==> #[trigger] final(self).states@[i] != StepState::Pending,
            match *event {
                SequenceEvent::Skipped(rows) => {
                    &&& forall|i: int|
                        0 <= i < old(self).states@.len() ==> #[trigger] final(self).states@[i] == (
                        if names_row(rows@, i) {
                            StepState::Skipped
                        } else {
                            old(self).states@[i]
                        })
                    &&& final(self).current == old(self).current
                },
                SequenceEvent::Countdown { row, seconds_left, .. } => {
                    &&& final(self).states@ == set_row(
                        old(self).states@,
                        row,
                        StepState::Countdown(seconds_left),
                    )
                    &&& final(self).current == Some(row)
                },
                SequenceEvent::Step { row, .. } => {
                    &&& final(self).states@ == set_row(old(self).states@, row, StepState::Playing)
                    &&& final(self).current == Some(row)
                },
                SequenceEvent::Done { row, .. } => {
                    &&& final(self).states@ == set_row(old(self).states@, row, StepState::Done)
                    &&& final(self).current is None
                },
            },
    {
        match *event {
            SequenceEvent::Skipped(rows) => {
                let mut j: usize = 0;
                while j < rows.len()
                    invariant
                        j <= rows@.len(),
                        self.states@.len() == old(self).states@.len(),
                        self.current == old(self).current,
                        forall|i: int|
                            0 <= i < old(self).states@.len() ==> #[trigger] self.states@[i] == (
                            if exists|k: int| 0 <= k < j && rows@[k].0 == i {
                                StepState::Skipped
                            } else {
                                old(self).states@[i]
                            }),
                    decreases rows@.len() - j,
                {
                    let row = rows[j].0;
                    if row < self.states.len() {
                        self.states.set(row, StepState::Skipped);
                    }
                    proof {
                        assert forall|i: int| 0 <= i < old(self).states@.len() implies #[trigger]
                            self.states@[i] == (if exists|k: int| 0 <= k < j + 1 && rows@[k].0 == i {
                                StepState::Skipped
                            } else {
                                old(self).states@[i]
                            }) by {
                            if rows@[j as int].0 == i {
                                assert(0 <= j < j + 1 && rows@[j as int].0 == i);
                            }
                        }
                    }
                    j = j + 1;
                }
            },
            SequenceEvent::Countdown { row, seconds_left, .. } => {
                if row < self.states.len() {
                    self.states.set(row, StepState::Countdown(seconds_left));
                }
                self.current = Some(row);
            },
            SequenceEvent::Step { row, .. } => {
                if row < self.states.len() {
                    self.states.set(row, StepState::Playing);
                }
                self.current = Some(row);
            },
            SequenceEvent::Done { row, .. } => {
                if row < self.states.len() {
                    self.states.set(row, StepState::Done);
                }
                self.current = None;
            },
        }
    }
}

// ---------------------------------------------------------------------------
// The sequence runner.
// ---------------------------------------------------------------------------

/// A failed device operation. `Gone` (`ENODEV`: the wheel was unplugged)
/// ends a run quietly; `Other` carries a message.
#[derive(Debug, Clone, PartialEq, Eq)]
pub enum DeviceError {
    Gone,
    Other(String),
}

/// How a run of [`run_sequence`] ended.
#[derive(Debug, Clone, PartialEq, Eq)]
pub enum SequenceEnd {
    /// Every runnable step played out.
    Completed,
    /// Cancelled before or during a step (anything uploaded was stopped
    /// and erased first).
    Cancelled,
    /// The wheel disappeared mid-run.
    DeviceGone,
    /// A device operation failed for another reason.
    Failed(String),
}

/// How a device failure ends the run.
pub open spec fn end_for(e: DeviceError) -> SequenceEnd {
    match e {
        DeviceError::Gone => SequenceEnd::DeviceGone,
        DeviceError::Other(msg) => SequenceEnd::Failed(msg),
    }
}

impl DeviceError {
    fn into_end(self) -> (r: SequenceEnd)
        ensures
            r == end_for(self),
    {
        match self {
            DeviceError::Gone => SequenceEnd::DeviceGone,
            DeviceError::Other(msg) => SequenceEnd::Failed(msg),
        }
    }
}

/// One operation made on an [`FfDevice`], with what it returned.
#[derive(Debug)]
pub enum FfCall {
    Bits([u8; FF_BITS_LEN]),
    Gain(i32, Result<(), DeviceError>),
    Upload(FfEffect, Result<i16, DeviceError>),
    Play(i16, i32, Result<(), DeviceError>),
    Erase(i16),
}

/// An open force-feedback device: what [`run_sequence`] drives. Each
/// front-end implements it over its own device node.
///
/// The contracts below hold of a device that is modelled: `calls` is the
/// history of the operations made on it, each with its result, and every
/// method adds its own call to it. An implementation outside the verified
/// crate leaves `modelled` at its default, false, and then these contracts
/// claim nothing of it (what [`run_sequence`] states of its own steps holds
/// all the same).
pub trait FfDevice {
    /// Whether `calls` is this device's history.
    closed spec fn modelled() -> bool {
        false
    }

    closed spec fn calls(&self) -> Seq<FfCall> {
        Seq::empty()
    }

    /// Set the overall gain (0..=0xFFFF).
    fn set_gain(&mut self, value: i32) -> (r: Result<(), DeviceError>)
        ensures
            Self::modelled() ==> final(self).calls() == old(self).calls().push(FfCall::Gain(value, r)),
    ;

    /// Upload an effect, returning the id the kernel assigned.
    fn upload(&mut self, effect: &FfEffect) -> (r: Result<i16, DeviceError>)
        ensures
            Self::modelled() ==> final(self).calls() == old(self).calls().push(FfCall::Upload(*effect, r)),
    ;

    /// Start (`value != 0`) or stop (`value == 0`) an uploaded effect.
    fn play(&mut self, id: i16, value: i32) -> (r: Result<(), DeviceError>)
        ensures
            Self::modelled() ==> final(self).calls() == old(self).calls().push(FfCall::Play(id, value, r)),
    ;

    /// Erase an uploaded effect (best-effort).
    fn erase(&mut self, id: i16)
        ensures
            Self::modelled() ==> final(self).calls() == old(self).calls().push(FfCall::Erase(id)),
    ;

    /// The `EV_FF` capability bitmap.
    fn ff_bits(&mut self) -> (r: [u8; FF_BITS_LEN])
        ensures
            Self::modelled() ==> final(self).calls() == old(self).calls().push(FfCall::Bits(r)),
    ;
}

/// The outcome of one run: how it ended, how many steps played (fully,
/// or until a cancel stopped them), and the labels of the steps skipped
/// for lack of device support.
#[derive(Debug, Clone, PartialEq, Eq)]
pub struct SequenceOutcome {
    pub end: SequenceEnd,
    pub ran: usize,
    pub skipped: Vec<&'static str>,
}

pub open spec fn end_text(end: SequenceEnd) -> Seq<char> {
    match end {
        SequenceEnd::Completed => "finished"@,
        SequenceEnd::Cancelled => "stopped"@,
        SequenceEnd::DeviceGone => "wheel disconnected, stopped"@,
        SequenceEnd::Failed(msg) => "error: "@ + msg@,
    }
}

impl SequenceOutcome {
    /// A one-line summary of how the run ended, naming skipped steps.
    pub fn summary(&self) -> (r: String)
        ensures
            r@ == (if self.skipped@.len() == 0 {
                end_text(self.end)
            } else {
                end_text(self.end) + " (not supported by this wheel, skipped: "@ + join(
                    self.skipped@.map_values(|s: &str| s@),
                    ", "@,
                ) + ")"@
            }),
    {
        let mut base = match &self.end {
            SequenceEnd::Completed => String::from_str("finished"),
            SequenceEnd::Cancelled => String::from_str("stopped"),
            SequenceEnd::DeviceGone => String::from_str("wheel disconnected, stopped"),
            SequenceEnd::Failed(msg) => {
                let mut b = String::from_str("error: ");
                b.append(msg.as_str());
                b
            },
        };
        if self.skipped.len() == 0 {
            base
        } else {
            base.append(" (not supported by this wheel, skipped: ");
            let list = join_strs(&self.skipped, ", ");
            base.append(list.as_str());
            base.append(")");
            base
        }
    }
}

/// How a wait ended: it ran its course, or the run was cancelled.
#[derive(Debug, Clone, Copy, PartialEq, Eq, Structural)]
pub enum WaitOutcome {
    Completed,
    Cancelled,
}

// ---------------------------------------------------------------------------
// A run, interaction by interaction.
// ---------------------------------------------------------------------------

/// A [`SequenceEvent`] as plain data.
pub enum EventView {
    Skipped(Seq<(usize, &'static str)>),
    Countdown { row: usize, total: usize, step: SimStep, seconds_left: u64 },
    Step { row: usize, total: usize, step: SimStep },
    Done { row: usize, total: usize },
}

/// What an event says, as plain data.
pub open spec fn event_view(e: SequenceEvent) -> EventView {
    match e {
        SequenceEvent::Skipped(rows) => EventView::Skipped(rows@),
        SequenceEvent::Countdown { row, total, step, seconds_left } => EventView::Countdown {
            row,
            total,
            step: *step,
            seconds_left,
        },
        SequenceEvent::Step { row, total, step } => EventView::Step { row, total, step: *step },
        SequenceEvent::Done { row, total } => EventView::Done { row, total },
    }
}

/// One thing a run asked of its host, with the answer: a read of the
/// cancel flag, an event handed to the front-end, or a wait of the given
/// length.
pub enum HostCall {
    Check(bool),
    Event(EventView),
    Wait(Duration, WaitOutcome),
}

/// One interaction of a run, with the device or with its host.
pub enum Interaction {
    Device(FfCall),
    Host(HostCall),
}

/// The device calls among `t`, in order.
pub open spec fn device_part(t: Seq<Interaction>) -> Seq<FfCall>
    decreases t.len(),
{
    if t.len() == 0 {
        Seq::empty()
    } else {
        match t.last() {
            Interaction::Device(c) => device_part(t.drop_last()).push(c),
            Interaction::Host(_) => device_part(t.drop_last()),
        }
    }
}

/// The host calls among `t`, in order.
pub open spec fn host_part(t: Seq<Interaction>) -> Seq<HostCall>
    decreases t.len(),
{
    if t.len() == 0 {
        Seq::empty()
    } else {
        match t.last() {
            Interaction::Host(h) => host_part(t.drop_last()).push(h),
            Interaction::Device(_) => host_part(t.drop_last()),
        }
    }
}

/// Host calls as interactions.
pub open spec fn hosts(h: Seq<HostCall>) -> Seq<Interaction> {
    h.map_values(|x: HostCall| Interaction::Host(x))
}

/// Where a run stands between two interactions. `k` counts the runnable
/// steps before the current one.
pub enum RunPhase {
    /// Nothing done: the capability bitmap is read first.
    Start,
    /// The skip list is announced next.
    SkipNotice,
    /// Full gain is set next.
    Gain,
    /// The cancel flag is read before step `k`'s countdown.
    Check { k: nat },
    /// Step `k`'s countdown tick `left` is announced next.
    Tick { k: nat, left: u64 },
    /// That tick is waited out next.
    TickWait { k: nat, left: u64 },
    /// Step `k` is announced as playing next.
    Announce { k: nat },
    /// Step `k`'s effect is uploaded next.
    Upload { k: nat },
    /// The uploaded effect `id` is started next.
    Begin { k: nat, id: i16 },
    /// The started effect is held for the step's duration next.
    Hold { k: nat, id: i16 },
    /// The effect is stopped next; how starting and holding it went.
    Stop { k: nat, id: i16, started: Result<(), DeviceError>, waited: WaitOutcome },
    /// The effect is erased next.
    Erase { k: nat, id: i16, started: Result<(), DeviceError>, waited: WaitOutcome },
    /// Step `k` is announced as done next.
    Finish { k: nat, waited: WaitOutcome },
    /// The run is over.
    Ended(SequenceEnd),
}

/// A run's state: its phase, the capability bitmap it read, and the
/// steps that played.
pub struct RunState {
    pub phase: RunPhase,
    pub bits: Seq<u8>,
    pub ran: nat,
}

/// A run before its first interaction.
pub open spec fn run_start() -> RunState {
    RunState { phase: RunPhase::Start, bits: Seq::empty(), ran: 0 }
}

/// `s` moved on to phase `p`.
pub open spec fn phase_to(s: RunState, p: RunPhase) -> RunState {
    RunState { phase: p, bits: s.bits, ran: s.ran }
}

/// What a run of `steps` on a wheel of `model` with `cd`'s countdown does
/// next from state `s`, given the interaction `x` that came next: the new
/// state, or `None` when the run would not have made that interaction.
/// The answers (device results, flag reads, wait outcomes) are `x`'s;
/// everything else is the run's.
pub open spec fn next(steps: Seq<SimStep>, model: WheelModel, cd: Countdown, s: RunState, x: Interaction) -> Option<RunState> {
    let rows = runnable_rows(steps, s.bits, steps.len());
    let total = steps.len() as usize;
    match s.phase {
        RunPhase::Start => match x {
            Interaction::Device(FfCall::Bits(b)) => {
                let bits = b@;
                let phase = if skipped_rows(steps, bits, steps.len()).len() > 0 {
                    RunPhase::SkipNotice
                } else if runnable_rows(steps, bits, steps.len()).len() == 0 {
                    RunPhase::Ended(SequenceEnd::Completed)
                } else {
                    RunPhase::Gain
                };
                Some(RunState { phase, bits, ran: 0 })
            },
            _ => None,
        },
        RunPhase::SkipNotice => if x == Interaction::Host(
            HostCall::Event(EventView::Skipped(skipped_rows(steps, s.bits, steps.len()))),
        ) {
            Some(
                phase_to(
                    s,
                    if rows.len() == 0 {
                        RunPhase::Ended(SequenceEnd::Completed)
                    } else {
                        RunPhase::Gain
                    },
                ),
            )
        } else {
            None
        },
        RunPhase::Gain => match x {
            Interaction::Device(FfCall::Gain(v, res)) => if v == 0xFFFF {
                match res {
                    Err(e) => Some(phase_to(s, RunPhase::Ended(end_for(e)))),
                    Ok(_) => Some(phase_to(s, RunPhase::Check { k: 0 })),
                }
            } else {
                None
            },
            _ => None,
        },
        RunPhase::Check { k } => match x {
            Interaction::Host(HostCall::Check(c)) => if c {
                Some(phase_to(s, RunPhase::Ended(SequenceEnd::Cancelled)))
            } else if cd.ticks >= 1 {
                Some(phase_to(s, RunPhase::Tick { k, left: cd.ticks }))
            } else {
                Some(phase_to(s, RunPhase::Announce { k }))
            },
            _ => None,
        },
        RunPhase::Tick { k, left } => if x == Interaction::Host(
            HostCall::Event(
                EventView::Countdown {
                    row: rows[k as int] as usize,
                    total,
                    step: steps[rows[k as int]],
                    seconds_left: left,
                },
            ),
        ) {
            Some(phase_to(s, RunPhase::TickWait { k, left }))
        } else {
            None
        },
        RunPhase::TickWait { k, left } => match x {
            Interaction::Host(HostCall::Wait(d, a)) => if d == cd.tick {
                if a == WaitOutcome::Cancelled {
                    Some(phase_to(s, RunPhase::Ended(SequenceEnd::Cancelled)))
                } else if left > 1 {
                    Some(phase_to(s, RunPhase::Tick { k, left: (left - 1) as u64 }))
                } else {
                    Some(phase_to(s, RunPhase::Announce { k }))
                }
            } else {
                None
            },
            _ => None,
        },
        RunPhase::Announce { k } => if x == Interaction::Host(
            HostCall::Event(EventView::Step { row: rows[k as int] as usize, total, step: steps[rows[k as int]] }),
        ) {
            Some(phase_to(s, RunPhase::Upload { k }))
        } else {
            None
        },
        RunPhase::Upload { k } => match x {
            Interaction::Device(FfCall::Upload(e, res)) => if is_effect_for(e, steps[rows[k as int]], model) {
                match res {
                    Err(er) => Some(phase_to(s, RunPhase::Ended(end_for(er)))),
                    Ok(id) => Some(phase_to(s, RunPhase::Begin { k, id })),
                }
            } else {
                None
            },
            _ => None,
        },
        RunPhase::Begin { k, id } => match x {
            Interaction::Device(FfCall::Play(i, v, p)) => if i == id && v == 1 {
                match p {
                    Ok(_) => Some(phase_to(s, RunPhase::Hold { k, id })),
                    Err(_) => Some(phase_to(s, RunPhase::Stop { k, id, started: p, waited: WaitOutcome::Completed })),
                }
            } else {
                None
            },
            _ => None,
        },
        RunPhase::Hold { k, id } => match x {
            Interaction::Host(HostCall::Wait(d, a)) => if d == millis_duration(
                steps[rows[k as int]].duration_ms as u64,
            ) {
                Some(phase_to(s, RunPhase::Stop { k, id, started: Ok(()), waited: a }))
            } else {
                None
            },
            _ => None,
        },
        RunPhase::Stop { k, id, started, waited } => match x {
            Interaction::Device(FfCall::Play(i, v, _)) => if i == id && v == 0 {
                Some(phase_to(s, RunPhase::Erase { k, id, started, waited }))
            } else {
                None
            },
            _ => None,
        },
        RunPhase::Erase { k, id, started, waited } => if x == Interaction::Device(FfCall::Erase(id)) {
            match started {
                Err(e) => Some(phase_to(s, RunPhase::Ended(end_for(e)))),
                Ok(_) => Some(RunState { phase: RunPhase::Finish { k, waited }, bits: s.bits, ran: s.ran + 1 }),
            }
        } else {
            None
        },
        RunPhase::Finish { k, waited } => if x == Interaction::Host(
            HostCall::Event(EventView::Done { row: rows[k as int] as usize, total }),
        ) {
            if waited == WaitOutcome::Cancelled {
                Some(phase_to(s, RunPhase::Ended(SequenceEnd::Cancelled)))
            } else if k + 1 < rows.len() {
                Some(phase_to(s, RunPhase::Check { k: k + 1 }))
            } else {
                Some(phase_to(s, RunPhase::Ended(SequenceEnd::Completed)))
            }
        } else {
            None
        },
        RunPhase::Ended(_) => None,
    }
}

/// The state after the interactions `t`, from `s`; `None` if the run
/// would not have made them.
pub open spec fn run_from(steps: Seq<SimStep>, model: WheelModel, cd: Countdown, s: RunState, t: Seq<Interaction>) -> Option<RunState>
    decreases t.len(),
{
    if t.len() == 0 {
        Some(s)
    } else {
        match run_from(steps, model, cd, s, t.drop_last()) {
            None => None,
            Some(s2) => next(steps, model, cd, s2, t.last()),
        }
    }
}

/// `t` is exactly what a whole run of `steps` does, ending as `outcome`
/// says: every device call and its result, and every flag read, event and
/// wait, in order.
pub open spec fn run_trace(
    steps: Seq<SimStep>,
    model: WheelModel,
    cd: Countdown,
    t: Seq<Interaction>,
    outcome: SequenceOutcome,
) -> bool {
    &&& run_from(steps, model, cd, run_start(), t) matches Some(s)
    &&& s.phase == RunPhase::Ended(outcome.end)
    &&& s.ran == outcome.ran
}

proof fn lemma_run_push(steps: Seq<SimStep>, model: WheelModel, cd: Countdown, s: RunState, t: Seq<Interaction>, x: Interaction)
    ensures
        run_from(steps, model, cd, s, t.push(x)) == match run_from(steps, model, cd, s, t) {
            None => None,
            Some(s2) => next(steps, model, cd, s2, x),
        },
{
    assert(t.push(x).drop_last() =~= t);
}

proof fn lemma_run_append(steps: Seq<SimStep>, model: WheelModel, cd: Countdown, s: RunState, a: Seq<Interaction>, b: Seq<Interaction>)
    ensures
        run_from(steps, model, cd, s, a + b) == match run_from(steps, model, cd, s, a) {
            None => None,
            Some(s2) => run_from(steps, model, cd, s2, b),
        },
    decreases b.len(),
{
    if b.len() == 0 {
        assert(a + b =~= a);
    } else {
        lemma_run_append(steps, model, cd, s, a, b.drop_last());
        assert((a + b).drop_last() =~= a + b.drop_last());
        assert((a + b).last() == b.last());
    }
}

proof fn lemma_parts_push(t: Seq<Interaction>, x: Interaction)
    ensures
        device_part(t.push(x)) == (match x {
            Interaction::Device(c) => device_part(t).push(c),
            Interaction::Host(_) => device_part(t),
        }),
        host_part(t.push(x)) == (match x {
            Interaction::Host(h) => host_part(t).push(h),
            Interaction::Device(_) => host_part(t),
        }),
{
    assert(t.push(x).drop_last() =~= t);
}

proof fn lemma_parts_append(a: Seq<Interaction>, b: Seq<Interaction>)
    ensures
        device_part(a + b) == device_part(a) + device_part(b),
        host_part(a + b) == host_part(a) + host_part(b),
    decreases b.len(),
{
    if b.len() == 0 {
        assert(a + b =~= a);
        assert(device_part(a) + device_part(b) =~= device_part(a));
        assert(host_part(a) + host_part(b) =~= host_part(a));
    } else {
        lemma_parts_append(a, b.drop_last());
        assert((a + b).drop_last() =~= a + b.drop_last());
        assert((a + b).last() == b.last());
        assert(device_part(a) + device_part(b.drop_last()).push(b.last()->Device_0) =~= (device_part(a)
            + device_part(b.drop_last())).push(b.last()->Device_0));
        assert(host_part(a) + host_part(b.drop_last()).push(b.last()->Host_0) =~= (host_part(a)
            + host_part(b.drop_last())).push(b.last()->Host_0));
    }
}

proof fn lemma_hosts_parts(h: Seq<HostCall>)
    ensures
        device_part(hosts(h)) == Seq::<FfCall>::empty(),
        host_part(hosts(h)) == h,
    decreases h.len(),
{
    if h.len() > 0 {
        lemma_hosts_parts(h.drop_last());
        assert(hosts(h).drop_last() =~= hosts(h.drop_last()));
    } else {
        assert(hosts(h) =~= Seq::<Interaction>::empty());
    }
}

/// Whether a step's effect type is in the capability bitmap.
pub open spec fn step_supported(bits: Seq<u8>, step: SimStep) -> bool {
    type_supported(bits, effect_type(step.effect))
}

/// The rows before `r` whose steps the device supports, in order.
pub open spec fn runnable_rows(steps: Seq<SimStep>, bits: Seq<u8>, r: nat) -> Seq<int>
    decreases r,
{
    if r == 0 {
        Seq::empty()
    } else {
        let p = runnable_rows(steps, bits, (r - 1) as nat);
        if step_supported(bits, steps[r - 1]) {
            p.push(r - 1)
        } else {
            p
        }
    }
}

/// The rows before `r` whose steps the device does not support, with
/// their labels, in order.
pub open spec fn skipped_rows(steps: Seq<SimStep>, bits: Seq<u8>, r: nat) -> Seq<(usize, &'static str)>
    decreases r,
{
    if r == 0 {
        Seq::empty()
    } else {
        let p = skipped_rows(steps, bits, (r - 1) as nat);
        if step_supported(bits, steps[r - 1]) {
            p
        } else {
            p.push(((r - 1) as usize, steps[r - 1].label))
        }
    }
}

pub open spec fn labels(rows: Seq<(usize, &'static str)>) -> Seq<&'static str> {
    rows.map_values(|p: (usize, &'static str)| p.1)
}

pub open spec fn upload_id(c: FfCall) -> i16 {
    c->Upload_1->Ok_0
}

/// The `m`-th block of four calls after the first two plays one step:
/// upload its effect (which succeeds), start it, stop it, erase it.
pub open spec fn step_block(calls: Seq<FfCall>, m: int, step: SimStep, model: WheelModel) -> bool {
    let at = 2 + 4 * m;
    &&& 0 <= m
    &&& at + 4 <= calls.len()
    &&& calls[at] is Upload
    &&& is_effect_for(calls[at]->Upload_0, step, model)
    &&& calls[at]->Upload_1 is Ok
    &&& calls[at + 1] is Play
    &&& calls[at + 1]->Play_0 == upload_id(calls[at])
    &&& calls[at + 1]->Play_1 == 1
    &&& calls[at + 2] is Play
    &&& calls[at + 2]->Play_0 == upload_id(calls[at])
    &&& calls[at + 2]->Play_1 == 0
    &&& calls[at + 3] == FfCall::Erase(upload_id(calls[at]))
}

/// The start call of the `m`-th block succeeded.
pub open spec fn block_played(calls: Seq<FfCall>, m: int) -> bool {
    calls[2 + 4 * m + 1]->Play_2 is Ok
}

/// The calls after the gain was set: `k` complete step blocks for the
/// first `k` runnable rows, each block but possibly the last having
/// started successfully, and then the run's end.
pub open spec fn blocks_record(
    calls: Seq<FfCall>,
    steps: Seq<SimStep>,
    model: WheelModel,
    rows: Seq<int>,
    outcome: SequenceOutcome,
) -> bool {
    let n = calls.len() - 2;
    let k = n / 4;
    &&& n % 4 <= 1
    &&& k <= rows.len()
    &&& forall|m: int| 0 <= m < k ==> #[trigger] step_block(calls, m, steps[rows[m]], model)
    &&& forall|m: int| 0 <= m < k - 1 ==> #[trigger] block_played(calls, m)
    &&& if n % 4 == 1 {
        // The next step's upload failed, and was the last call.
        &&& k < rows.len()
        &&& calls.last() is Upload
        &&& is_effect_for(calls.last()->Upload_0, steps[rows[k]], model)
        &&& calls.last()->Upload_1 is Err
        &&& outcome.end == end_for(calls.last()->Upload_1->Err_0)
        &&& outcome.ran == k
        &&& k > 0 ==> block_played(calls, k - 1)
    } else if k > 0 && !block_played(calls, k - 1) {
        // The last step failed to start; it was still stopped and erased.
        &&& outcome.end == end_for(calls[2 + 4 * (k - 1) + 1]->Play_2->Err_0)
        &&& outcome.ran == k - 1
    } else {
        &&& outcome.ran == k
        &&& outcome.end == SequenceEnd::Completed || outcome.end == SequenceEnd::Cancelled
        &&& outcome.end == SequenceEnd::Completed ==> k == rows.len()
    }
}

/// What one run did to the device and returned, `calls` being the calls it
/// made: it read the capability bitmap first; reported exactly the
/// unsupported steps as skipped; when nothing was runnable made no other
/// call; otherwise set full gain and, if that worked, played the runnable
/// steps in order as [`blocks_record`] describes.
pub open spec fn run_record(
    calls: Seq<FfCall>,
    steps: Seq<SimStep>,
    model: WheelModel,
    outcome: SequenceOutcome,
) -> bool {
    &&& calls.len() >= 1
    &&& calls[0] is Bits
    &&& {
        let bits = calls[0]->Bits_0@;
        let rows = runnable_rows(steps, bits, steps.len());
        &&& outcome.skipped@ == labels(skipped_rows(steps, bits, steps.len()))
        &&& if rows.len() == 0 {
            &&& calls.len() == 1
            &&& outcome.end == SequenceEnd::Completed
            &&& outcome.ran == 0
        } else {
            &&& calls.len() >= 2
            &&& calls[1] is Gain
            &&& calls[1]->Gain_0 == 0xFFFF
            &&& match calls[1]->Gain_1 {
                Err(e) => calls.len() == 2 && outcome.end == end_for(e) && outcome.ran == 0,
                Ok(_) => blocks_record(calls, steps, model, rows, outcome),
            }
        }
    }
}

proof fn lemma_rows_split(steps: Seq<SimStep>, bits: Seq<u8>, r: nat)
    requires
        r <= steps.len(),
    ensures
        runnable_rows(steps, bits, r).len() + skipped_rows(steps, bits, r).len() == r,
        forall|m: int|
            0 <= m < runnable_rows(steps, bits, r).len() ==> 0 <= #[trigger] runnable_rows(
                steps,
                bits,
                r,
            )[m] < r,
    decreases r,
{
    if r > 0 {
        lemma_rows_split(steps, bits, (r - 1) as nat);
    }
}

/// The runnable rows below `r` are the first ones of all the runnable rows.
proof fn lemma_rows_prefix(steps: Seq<SimStep>, bits: Seq<u8>, r: nat, total: nat)
    requires
        r <= total <= steps.len(),
    ensures
        runnable_rows(steps, bits, r).len() <= runnable_rows(steps, bits, total).len(),
        forall|m: int|
            0 <= m < runnable_rows(steps, bits, r).len() ==> #[trigger] runnable_rows(
                steps,
                bits,
                total,
            )[m] == runnable_rows(steps, bits, r)[m],
    decreases total - r,
{
    if r < total {
        lemma_rows_prefix(steps, bits, r, (total - 1) as nat);
    }
}

/// Appending calls keeps the blocks already recorded.
proof fn lemma_blocks_extend(
    log: Seq<FfCall>,
    c: Seq<FfCall>,
    steps: Seq<SimStep>,
    model: WheelModel,
    rows: Seq<int>,
    k: int,
)
    requires
        0 <= k,
        log.len() == 2 + 4 * k,
        forall|m: int| 0 <= m < k ==> #[trigger] step_block(log, m, steps[rows[m]], model),
        forall|m: int| 0 <= m < k ==> #[trigger] block_played(log, m),
    ensures
        forall|m: int| 0 <= m < k ==> #[trigger] step_block(log + c, m, steps[rows[m]], model),
        forall|m: int| 0 <= m < k ==> #[trigger] block_played(log + c, m),
        (log + c)[0] == log[0],
        (log + c)[1] == log[1],
{
    assert forall|m: int| 0 <= m < k implies #[trigger] block_played(log + c, m) by {
        assert(block_played(log, m));
        assert((log + c)[2 + 4 * m + 1] == log[2 + 4 * m + 1]);
    }
    assert forall|m: int| 0 <= m < k implies #[trigger] step_block(log + c, m, steps[rows[m]], model) by {
        assert(step_block(log, m, steps[rows[m]], model));
        let at = 2 + 4 * m;
        assert((log + c)[at] == log[at]);
        assert((log + c)[at + 1] == log[at + 1]);
        assert((log + c)[at + 2] == log[at + 2]);
        assert((log + c)[at + 3] == log[at + 3]);
    }
}

proof fn lemma_div4(k: int)
    requires
        k >= 0,
    ensures
        (4 * k) / 4 == k,
        (4 * k) % 4 == 0,
        (4 * k + 1) / 4 == k,
        (4 * k + 1) % 4 == 1,
{
}

/// A run that stopped after `k` complete, successfully started blocks.
proof fn lemma_run_record_blocks(
    log: Seq<FfCall>,
    steps: Seq<SimStep>,
    model: WheelModel,
    rows: Seq<int>,
    r: SequenceOutcome,
    k: int,
)
    requires
        0 <= k <= rows.len(),
        rows.len() > 0,
        log.len() == 2 + 4 * k,
        log[0] is Bits,
        rows == runnable_rows(steps, log[0]->Bits_0@, steps.len()),
        r.skipped@ == labels(skipped_rows(steps, log[0]->Bits_0@, steps.len())),
        log[1] == FfCall::Gain(0xFFFF, Ok(())),
        forall|m: int| 0 <= m < k ==> #[trigger] step_block(log, m, steps[rows[m]], model),
        forall|m: int| 0 <= m < k ==> #[trigger] block_played(log, m),
        r.ran == k,
        r.end == SequenceEnd::Completed || r.end == SequenceEnd::Cancelled,
        r.end == SequenceEnd::Completed ==> k == rows.len(),
    ensures
        run_record(log, steps, model, r),
{
    lemma_div4(k);
    assert((log.len() - 2) / 4 == k);
}

/// A run whose upload for runnable row `k` failed after `k` complete,
/// successfully started blocks.
proof fn lemma_run_record_failed_upload(
    log: Seq<FfCall>,
    steps: Seq<SimStep>,
    model: WheelModel,
    rows: Seq<int>,
    r: SequenceOutcome,
    k: int,
)
    requires
        0 <= k < rows.len(),
        log.len() == 2 + 4 * k + 1,
        log[0] is Bits,
        rows == runnable_rows(steps, log[0]->Bits_0@, steps.len()),
        r.skipped@ == labels(skipped_rows(steps, log[0]->Bits_0@, steps.len())),
        log[1] == FfCall::Gain(0xFFFF, Ok(())),
        forall|m: int| 0 <= m < k ==> #[trigger] step_block(log, m, steps[rows[m]], model),
        forall|m: int| 0 <= m < k ==> #[trigger] block_played(log, m),
        log.last() is Upload,
        is_effect_for(log.last()->Upload_0, steps[rows[k]], model),
        log.last()->Upload_1 is Err,
        r.end == end_for(log.last()->Upload_1->Err_0),
        r.ran == k,
    ensures
        run_record(log, steps, model, r),
{
    lemma_div4(k);
    assert((log.len() - 2) / 4 == k);
    assert((log.len() - 2) % 4 == 1);
}

/// A run whose `k + 1`-th block failed to start (and was still stopped and
/// erased) after `k` complete, successfully started blocks.
proof fn lemma_run_record_failed_play(
    log: Seq<FfCall>,
    steps: Seq<SimStep>,
    model: WheelModel,
    rows: Seq<int>,
    r: SequenceOutcome,
    k: int,
)
    requires
        0 <= k < rows.len(),
        log.len() == 2 + 4 * (k + 1),
        log[0] is Bits,
        rows == runnable_rows(steps, log[0]->Bits_0@, steps.len()),
        r.skipped@ == labels(skipped_rows(steps, log[0]->Bits_0@, steps.len())),
        log[1] == FfCall::Gain(0xFFFF, Ok(())),
        forall|m: int| 0 <= m < k + 1 ==> #[trigger] step_block(log, m, steps[rows[m]], model),
        forall|m: int| 0 <= m < k ==> #[trigger] block_played(log, m),
        !block_played(log, k),
        r.end == end_for(log[2 + 4 * k + 1]->Play_2->Err_0),
        r.ran == k,
    ensures
        run_record(log, steps, model, r),
{
    lemma_div4(k + 1);
    assert((log.len() - 2) / 4 == k + 1);
}

/// Whether the run has been cancelled: a read of a flag that other
/// threads may set at any moment, so nothing is known of the answer.
fn cancelled(cancel: &AtomicBool) -> bool {
    cancel.load(Ordering::Relaxed)
}

/// What a run talks to besides the device: the cancel flag, the
/// front-end's event callback, and its wait, which holds for the given
/// time and says whether the run was cancelled meanwhile. `log` is every
/// such interaction, with its answer, in order.
pub struct SequenceHost<'a, E, W> {
    cancel: &'a AtomicBool,
    on_event: E,
    wait: W,
    made: Ghost<Seq<HostCall>>,
}

impl<'a, E: FnMut(SequenceEvent), W: FnMut(Duration) -> WaitOutcome> SequenceHost<'a, E, W> {
    /// Every flag read, event and wait so far, with its answer.
    pub closed spec fn log(&self) -> Seq<HostCall> {
        self.made@
    }

    /// Both callbacks accept any argument.
    pub closed spec fn ready(&self) -> bool {
        &&& forall|e: SequenceEvent| #[trigger] self.on_event.requires((e,))
        &&& forall|d: Duration| #[trigger] self.wait.requires((d,))
    }

    /// A host over `cancel`, handing events to `on_event` and waiting with
    /// `wait`.
    pub fn new(cancel: &'a AtomicBool, on_event: E, wait: W) -> (r: Self)
        requires
            forall|e: SequenceEvent| #[trigger] on_event.requires((e,)),
            forall|d: Duration| #[trigger] wait.requires((d,)),
        ensures
            r.log() == Seq::<HostCall>::empty(),
            r.ready(),
    {
        SequenceHost { cancel, on_event, wait, made: Ghost(Seq::empty()) }
    }

    /// Read the cancel flag.
    fn check(&mut self) -> (r: bool)
        requires
            old(self).ready(),
        ensures
            final(self).ready(),
            final(self).log() == old(self).log().push(HostCall::Check(r)),
    {
        let r = cancelled(self.cancel);
        self.made = Ghost(self.made@.push(HostCall::Check(r)));
        r
    }

    /// Hand `e` to the front-end.
    fn emit(&mut self, e: SequenceEvent)
        requires
            old(self).ready(),
        ensures
            final(self).ready(),
            final(self).log() == old(self).log().push(HostCall::Event(event_view(e))),
    {
        (self.on_event)(e);
        self.made = Ghost(self.made@.push(HostCall::Event(event_view(e))));
    }

    /// Wait for `d`, or until the run is cancelled.
    fn hold(&mut self, d: Duration) -> (r: WaitOutcome)
        requires
            old(self).ready(),
        ensures
            final(self).ready(),
            final(self).log() == old(self).log().push(HostCall::Wait(d, r)),
    {
        let r = (self.wait)(d);
        self.made = Ghost(self.made@.push(HostCall::Wait(d, r)));
        r
    }
}

/// What a countdown of `ticks` ticks for row `row` asks of its host when
/// its waits answer `answers`: each tick announced, counting down from
/// `ticks`, then waited out.
pub open spec fn tick_calls(
    row: usize,
    total: usize,
    step: SimStep,
    tick: Duration,
    ticks: u64,
    answers: Seq<WaitOutcome>,
) -> Seq<HostCall>
    decreases answers.len(),
{
    if answers.len() == 0 {
        Seq::empty()
    } else {
        tick_calls(row, total, step, tick, ticks, answers.drop_last()) + seq![
            HostCall::Event(
                EventView::Countdown { row, total, step, seconds_left: (ticks - (answers.len() - 1)) as u64 },
            ),
            HostCall::Wait(tick, answers.last()),
        ]
    }
}

/// A countdown of `ticks` ticks whose waits answered `answers` stopped
/// where it should: at the first wait that answered `Cancelled` (and then
/// `cancelled` holds), or after the last tick.
pub open spec fn countdown_went(answers: Seq<WaitOutcome>, ticks: u64, cancelled: bool) -> bool {
    &&& answers.len() <= ticks
    &&& forall|i: int| 0 <= i < answers.len() - 1 ==> answers[i] == WaitOutcome::Completed
    &&& cancelled <==> (answers.len() > 0 && answers.last() == WaitOutcome::Cancelled)
    &&& !cancelled ==> answers.len() == ticks
}

/// Run a step's countdown: announce each tick and wait it out, stopping at
/// the first wait that answers `Cancelled`. Returns whether one did.
fn count_down<'a, E: FnMut(SequenceEvent), W: FnMut(Duration) -> WaitOutcome>(
    row: usize,
    total: usize,
    step: &SimStep,
    countdown: Countdown,
    host: &mut SequenceHost<'a, E, W>,
) -> (r: bool)
    requires
        old(host).ready(),
    ensures
        final(host).ready(),
        exists|answers: Seq<WaitOutcome>|
            #[trigger] countdown_went(answers, countdown.ticks, r) && final(host).log() == old(host).log()
                + tick_calls(row, total, *step, countdown.tick, countdown.ticks, answers),
{
    let ghost pre = host.log();
    let ghost mut answers: Seq<WaitOutcome> = Seq::empty();
    let mut left: u64 = countdown.ticks;
    assert(pre + tick_calls(row, total, *step, countdown.tick, countdown.ticks, answers) =~= pre);
    while left >= 1
        invariant
            pre == old(host).log(),
            left <= countdown.ticks,
            answers.len() == countdown.ticks - left,
            forall|i: int| 0 <= i < answers.len() ==> answers[i] == WaitOutcome::Completed,
            host.ready(),
            host.log() == pre + tick_calls(row, total, *step, countdown.tick, countdown.ticks, answers),
        decreases left,
    {
        host.emit(SequenceEvent::Countdown { row, total, step, seconds_left: left });
        let a = host.hold(countdown.tick);
        proof {
            let ghost before = answers;
            answers = answers.push(a);
            assert(answers.drop_last() =~= before);
            assert(host.log() =~= pre + tick_calls(row, total, *step, countdown.tick, countdown.ticks, answers));
        }
        if a == WaitOutcome::Cancelled {
            assert(countdown_went(answers, countdown.ticks, true));
            return true;
        }
        left = left - 1;
    }
    assert(countdown_went(answers, countdown.ticks, false));
    false
}

/// How playing one step went.
enum StepRun {
    /// The effect could not be uploaded; nothing else was done.
    UploadFailed(DeviceError),
    /// The effect was uploaded, started (with this result), waited on if
    /// it started (with this outcome), stopped and erased.
    Played(Result<(), DeviceError>, WaitOutcome),
}

/// `c` is the calls made playing `step`, which went as `r` says.
spec fn step_calls(c: Seq<FfCall>, step: SimStep, model: WheelModel, r: StepRun) -> bool {
    &&& c.len() >= 1
    &&& c[0] is Upload
    &&& is_effect_for(c[0]->Upload_0, step, model)
    &&& match r {
        StepRun::UploadFailed(e) => c.len() == 1 && c[0]->Upload_1 == Err::<i16, DeviceError>(e),
        StepRun::Played(p, _) => {
            &&& c.len() == 4
            &&& c[0]->Upload_1 is Ok
            &&& c[1] == FfCall::Play(upload_id(c[0]), 1, p)
            &&& c[2] is Play
            &&& c[2]->Play_0 == upload_id(c[0])
            &&& c[2]->Play_1 == 0
            &&& c[3] == FfCall::Erase(upload_id(c[0]))
        },
    }
}

/// `t` is the interactions of playing `step`, which went as `r` says:
/// the upload; then, if it worked, the start, the hold for the step's
/// duration (only if it started), the stop and the erase.
spec fn step_trace(t: Seq<Interaction>, step: SimStep, model: WheelModel, r: StepRun) -> bool {
    &&& t.len() >= 1
    &&& t[0] matches Interaction::Device(FfCall::Upload(e, res))
    &&& is_effect_for(e, step, model)
    &&& match r {
        StepRun::UploadFailed(er) => t.len() == 1 && res == Err::<i16, DeviceError>(er),
        StepRun::Played(p, w) => {
            &&& res matches Ok(id)
            &&& t[1] == Interaction::Device(FfCall::Play(id, 1, p))
            &&& if p is Ok {
                &&& t.len() == 5
                &&& t[2] == Interaction::Host(
                    HostCall::Wait(millis_duration(step.duration_ms as u64), w),
                )
                &&& t[3] matches Interaction::Device(FfCall::Play(i, v, _)) && i == id && v == 0
                &&& t[4] == Interaction::Device(FfCall::Erase(id))
            } else {
                &&& t.len() == 4
                &&& w == WaitOutcome::Completed
                &&& t[2] matches Interaction::Device(FfCall::Play(i, v, _)) && i == id && v == 0
                &&& t[3] == Interaction::Device(FfCall::Erase(id))
            }
        },
    }
}

/// Upload `step`'s effect; if that worked, start it, wait out its
/// duration if it started, then stop and erase it whatever happened.
/// Returns how it went and the interactions it made.
fn play_step<'a, D: FfDevice, E: FnMut(SequenceEvent), W: FnMut(Duration) -> WaitOutcome>(
    device: &mut D,
    step: &SimStep,
    model: WheelModel,
    host: &mut SequenceHost<'a, E, W>,
) -> (r: (StepRun, Ghost<Seq<Interaction>>))
    requires
        old(host).ready(),
    ensures
        final(host).ready(),
        step_trace(r.1@, *step, model, r.0),
        step_calls(device_part(r.1@), *step, model, r.0),
        final(host).log() == old(host).log() + host_part(r.1@),
        D::modelled() ==> final(device).calls() == old(device).calls() + device_part(r.1@),
{
    let ghost pre = device.calls();
    let ghost hpre = host.log();
    let effect = build_ff_effect(step, model);
    let up = device.upload(&effect);
    let ghost t0 = seq![Interaction::Device(FfCall::Upload(effect, up))];
    proof {
        lemma_parts_push(Seq::empty(), Interaction::Device(FfCall::Upload(effect, up)));
        assert(seq![Interaction::Device(FfCall::Upload(effect, up))] =~= Seq::<Interaction>::empty().push(
            Interaction::Device(FfCall::Upload(effect, up)),
        ));
        assert(device_part(Seq::<Interaction>::empty()) =~= Seq::<FfCall>::empty());
        assert(host_part(Seq::<Interaction>::empty()) =~= Seq::<HostCall>::empty());
    }
    let id = match up {
        Ok(id) => id,
        Err(e) => {
            assert(host.log() =~= hpre + host_part(t0));
            return (StepRun::UploadFailed(e), Ghost(t0));
        },
    };
    let played = device.play(id, 1);
    let ghost t1 = t0.push(Interaction::Device(FfCall::Play(id, 1, played)));
    proof {
        lemma_parts_push(t0, Interaction::Device(FfCall::Play(id, 1, played)));
    }
    let outcome = if played.is_ok() {
        host.hold(duration_from_millis(step.duration_ms as u64))
    } else {
        WaitOutcome::Completed
    };
    let ghost t2 = if played is Ok {
        t1.push(Interaction::Host(HostCall::Wait(millis_duration(step.duration_ms as u64), outcome)))
    } else {
        t1
    };
    proof {
        if played is Ok {
            lemma_parts_push(t1, Interaction::Host(HostCall::Wait(millis_duration(step.duration_ms as u64), outcome)));
        }
    }
    let stopped = device.play(id, 0);
    let ghost t3 = t2.push(Interaction::Device(FfCall::Play(id, 0, stopped)));
    device.erase(id);
    let ghost t4 = t3.push(Interaction::Device(FfCall::Erase(id)));
    proof {
        lemma_parts_push(t2, Interaction::Device(FfCall::Play(id, 0, stopped)));
        lemma_parts_push(t3, Interaction::Device(FfCall::Erase(id)));
        assert(device_part(t4) =~= seq![
            FfCall::Upload(effect, up),
            FfCall::Play(id, 1, played),
            FfCall::Play(id, 0, stopped),
            FfCall::Erase(id),
        ]);
        assert(host.log() =~= hpre + host_part(t4));
    }
    (StepRun::Played(played, outcome), Ghost(t4))
}

/// Countdown ticks with every wait but perhaps the last answering
/// `Completed` take a run from step `k`'s first tick to its next tick,
/// to the step's start, or (if the last wait answered `Cancelled`) to
/// the run's end.
proof fn lemma_ticks(
    steps: Seq<SimStep>,
    model: WheelModel,
    cd: Countdown,
    s: RunState,
    k: nat,
    answers: Seq<WaitOutcome>,
)
    requires
        s.phase == (RunPhase::Tick { k, left: cd.ticks }),
        cd.ticks >= 1,
        k < runnable_rows(steps, s.bits, steps.len()).len(),
        answers.len() <= cd.ticks,
        forall|i: int| 0 <= i < answers.len() - 1 ==> answers[i] == WaitOutcome::Completed,
    ensures
        ({
            let rows = runnable_rows(steps, s.bits, steps.len());
            let calls = tick_calls(
                rows[k as int] as usize,
                steps.len() as usize,
                steps[rows[k as int]],
                cd.tick,
                cd.ticks,
                answers,
            );
            run_from(steps, model, cd, s, hosts(calls)) == Some(
                phase_to(
                    s,
                    if answers.len() == 0 {
                        RunPhase::Tick { k, left: cd.ticks }
                    } else if answers.last() == WaitOutcome::Cancelled {
                        RunPhase::Ended(SequenceEnd::Cancelled)
                    } else if answers.len() < cd.ticks {
                        RunPhase::Tick { k, left: (cd.ticks - answers.len()) as u64 }
                    } else {
                        RunPhase::Announce { k }
                    },
                ),
            )
        }),
    decreases answers.len(),
{
    let rows = runnable_rows(steps, s.bits, steps.len());
    let row = rows[k as int] as usize;
    let total = steps.len() as usize;
    let step = steps[rows[k as int]];
    if answers.len() == 0 {
        assert(hosts(tick_calls(row, total, step, cd.tick, cd.ticks, answers)) =~= Seq::<Interaction>::empty());
        assert(s == phase_to(s, RunPhase::Tick { k, left: cd.ticks }));
    } else {
        let p = answers.drop_last();
        let a = answers.last();
        lemma_ticks(steps, model, cd, s, k, p);
        if p.len() > 0 {
            assert(p.last() == answers[answers.len() - 2]);
        }
        let left = (cd.ticks - p.len()) as u64;
        let ev = Interaction::Host(
            HostCall::Event(EventView::Countdown { row, total, step, seconds_left: left }),
        );
        let wt = Interaction::Host(HostCall::Wait(cd.tick, a));
        assert(hosts(tick_calls(row, total, step, cd.tick, cd.ticks, answers)) =~= hosts(
            tick_calls(row, total, step, cd.tick, cd.ticks, p),
        ) + seq![ev].push(wt));
        lemma_run_append(steps, model, cd, s, hosts(tick_calls(row, total, step, cd.tick, cd.ticks, p)), seq![ev].push(wt));
        let mid = phase_to(s, RunPhase::Tick { k, left });
        lemma_run_push(steps, model, cd, mid, seq![ev], wt);
        lemma_run_push(steps, model, cd, mid, Seq::empty(), ev);
        assert(seq![ev] =~= Seq::<Interaction>::empty().push(ev));
    }
}

/// Playing step `k` as `run` says takes a run from the step's upload to
/// its end or to its announcement as done.
proof fn lemma_step(
    steps: Seq<SimStep>,
    model: WheelModel,
    cd: Countdown,
    s: RunState,
    k: nat,
    t: Seq<Interaction>,
    run: StepRun,
)
    requires
        s.phase == (RunPhase::Upload { k }),
        k < runnable_rows(steps, s.bits, steps.len()).len(),
        step_trace(t, steps[runnable_rows(steps, s.bits, steps.len())[k as int]], model, run),
    ensures
        run_from(steps, model, cd, s, t) == Some(
            match run {
                StepRun::UploadFailed(e) => phase_to(s, RunPhase::Ended(end_for(e))),
                StepRun::Played(Err(e), _) => phase_to(s, RunPhase::Ended(end_for(e))),
                StepRun::Played(Ok(_), w) => RunState {
                    phase: RunPhase::Finish { k, waited: w },
                    bits: s.bits,
                    ran: s.ran + 1,
                },
            },
        ),
{
    reveal_with_fuel(run_from, 6);
    assert(t.drop_last().drop_last().drop_last().drop_last().drop_last().len() == 0 || t.len() < 5);
    if t.len() == 1 {
        assert(t.drop_last() =~= Seq::<Interaction>::empty());
    } else if t.len() == 4 {
        assert(t.drop_last().drop_last().drop_last().drop_last() =~= Seq::<Interaction>::empty());
        assert(t.drop_last().drop_last().drop_last().last() == t[0]);
        assert(t.drop_last().drop_last().last() == t[1]);
        assert(t.drop_last().last() == t[2]);
    } else {
        assert(t.drop_last().drop_last().drop_last().drop_last().drop_last() =~= Seq::<Interaction>::empty());
        assert(t.drop_last().drop_last().drop_last().drop_last().last() == t[0]);
        assert(t.drop_last().drop_last().drop_last().last() == t[1]);
        assert(t.drop_last().drop_last().last() == t[2]);
        assert(t.drop_last().last() == t[3]);
    }
}

/// Run `steps` against `device`, resolving each step's side for `model`.
///
/// The capability bitmap decides the full skip list up front (reported
/// once, before anything else); every other step then gets `countdown`'s
/// lead-in, plays for its duration, and is stopped and erased, on every
/// path, before the next one starts, so no effect slot leaks. The host's
/// wait holds a countdown tick or a step's playback for the given time and
/// says whether the run was cancelled meanwhile; its cancel flag is also
/// read before each step's countdown.
///
/// What the run did is one trace: every device call with its result and
/// every flag read, event and wait with its answer, in order, exactly as
/// [`next`] allows from the start to the returned end.
#[verifier::rlimit(100)]
#[verifier::spinoff_prover]
pub fn run_sequence<'a, D: FfDevice, E: FnMut(SequenceEvent), W: FnMut(Duration) -> WaitOutcome>(
    device: &mut D,
    steps: &[SimStep],
    model: WheelModel,
    countdown: Countdown,
    host: &mut SequenceHost<'a, E, W>,
) -> (r: SequenceOutcome)
    requires
        old(host).ready(),
    ensures
        final(host).ready(),
        exists|t: Seq<Interaction>|
            #[trigger] run_trace(steps@, model, countdown, t, r) && final(host).log() == old(host).log()
                + host_part(t) && run_record(device_part(t), steps@, model, r) && (D::modelled()
                ==> final(device).calls() == old(device).calls() + device_part(t)),
{
    let ghost pre = device.calls();
    let ghost hpre = host.log();
    let bits = device.ff_bits();
    let ghost bv = bits@;
    let ghost mut log: Seq<FfCall> = seq![FfCall::Bits(bits)];
    let ghost mut t: Seq<Interaction> = seq![Interaction::Device(FfCall::Bits(bits))];
    proof {
        assert(t =~= Seq::<Interaction>::empty().push(Interaction::Device(FfCall::Bits(bits))));
        lemma_parts_push(Seq::empty(), Interaction::Device(FfCall::Bits(bits)));
        lemma_run_push(steps@, model, countdown, run_start(), Seq::empty(), Interaction::Device(FfCall::Bits(bits)));
        assert(device_part(Seq::<Interaction>::empty()) =~= Seq::<FfCall>::empty());
        assert(host_part(Seq::<Interaction>::empty()) =~= Seq::<HostCall>::empty());
        assert(device_part(t) =~= log);
        assert(host.log() =~= hpre + host_part(t));
        assert(D::modelled() ==> device.calls() =~= pre + log);
    }
    let total = steps.len();
    let mut skip_mask: Vec<bool> = Vec::new();
    let mut skipped_list: Vec<(usize, &'static str)> = Vec::new();
    let mut skipped_labels: Vec<&'static str> = Vec::new();
    let mut row: usize = 0;
    while row < total
        invariant
            total == steps@.len(),
            row <= total,
            bits@ == bv,
            skip_mask@.len() == row,
            forall|j: int| 0 <= j < row ==> #[trigger] skip_mask@[j] == !step_supported(bv, steps@[j]),
            skipped_list@ == skipped_rows(steps@, bv, row as nat),
            skipped_labels@ == labels(skipped_list@),
        decreases total - row,
    {
        let step = &steps[row];
        let supported = ff_type_supported(bits.as_slice(), step.effect.ff_type());
        if !supported {
            skip_mask.push(true);
            skipped_list.push((row, step.label));
            skipped_labels.push(step.label);
        } else {
            skip_mask.push(false);
        }
        proof {
            assert(labels(skipped_list@) =~= skipped_labels@);
        }
        row = row + 1;
    }
    proof {
        lemma_rows_split(steps@, bv, total as nat);
    }
    if skipped_list.len() > 0 {
        let ghost x = Interaction::Host(HostCall::Event(EventView::Skipped(skipped_list@)));
        host.emit(SequenceEvent::Skipped(skipped_list.as_slice()));
        proof {
            lemma_parts_push(t, x);
            lemma_run_push(steps@, model, countdown, run_start(), t, x);
            t = t.push(x);
        }
    }
    if skipped_labels.len() == total {
        let r = SequenceOutcome { end: SequenceEnd::Completed, ran: 0, skipped: skipped_labels };
        proof {
            assert(run_trace(steps@, model, countdown, t, r));
        }
        return r;
    }
    let gain = device.set_gain(0xFFFF);
    proof {
        let x = Interaction::Device(FfCall::Gain(0xFFFF, gain));
        lemma_parts_push(t, x);
        lemma_run_push(steps@, model, countdown, run_start(), t, x);
        t = t.push(x);
        log = log.push(FfCall::Gain(0xFFFF, gain));
        assert(D::modelled() ==> device.calls() =~= pre + log);
    }
    match gain {
        Err(e) => {
            let r = SequenceOutcome { end: e.into_end(), ran: 0, skipped: skipped_labels };
            proof {
                assert(run_trace(steps@, model, countdown, t, r));
            }
            return r;
        },
        Ok(u) => {
            assert(gain == Ok::<(), DeviceError>(u));
            assert(log[1] == FfCall::Gain(0xFFFF, Ok(())));
        },
    }
    let ghost rows = runnable_rows(steps@, bv, total as nat);
    let mut ran: usize = 0;
    let mut row: usize = 0;
    while row < total
        invariant
            total == steps@.len(),
            row <= total,
            bits@ == bv,
            rows == runnable_rows(steps@, bv, total as nat),
            rows.len() > 0,
            rows.len() <= total,
            skip_mask@.len() == total,
            forall|j: int| 0 <= j < total ==> #[trigger] skip_mask@[j] == !step_supported(bv, steps@[j]),
            skipped_labels@ == labels(skipped_rows(steps@, bv, total as nat)),
            pre == old(device).calls(),
            hpre == old(host).log(),
            D::modelled() ==> device.calls() == pre + log,
            device_part(t) == log,
            host.ready(),
            host.log() == hpre + host_part(t),
            run_from(steps@, model, countdown, run_start(), t) == Some(
                RunState {
                    phase: if ran < rows.len() {
                        RunPhase::Check { k: ran as nat }
                    } else {
                        RunPhase::Ended(SequenceEnd::Completed)
                    },
                    bits: bv,
                    ran: ran as nat,
                },
            ),
            log.len() == 2 + 4 * ran,
            log[0] == FfCall::Bits(bits),
            log[1] == FfCall::Gain(0xFFFF, Ok(())),
            ran == runnable_rows(steps@, bv, row as nat).len(),
            ran <= rows.len(),
            forall|m: int| 0 <= m < ran ==> #[trigger] step_block(log, m, steps@[rows[m]], model),
            forall|m: int| 0 <= m < ran ==> #[trigger] block_played(log, m),
        decreases total - row,
    {
        proof {
            lemma_rows_prefix(steps@, bv, row as nat, total as nat);
            lemma_rows_prefix(steps@, bv, (row + 1) as nat, total as nat);
        }
        if skip_mask[row] {
            row = row + 1;
            continue;
        }
        let step = &steps[row];
        proof {
            assert(step_supported(bv, steps@[row as int]));
            assert(runnable_rows(steps@, bv, (row + 1) as nat) == runnable_rows(steps@, bv, row as nat).push(row as int));
            assert(ran < rows.len());
            assert(rows[ran as int] == row);
        }
        let ghost k = ran as nat;
        let ghost s0 = RunState { phase: RunPhase::Check { k }, bits: bv, ran: k };
        let stop = host.check();
        proof {
            let x = Interaction::Host(HostCall::Check(stop));
            lemma_parts_push(t, x);
            lemma_run_push(steps@, model, countdown, run_start(), t, x);
            t = t.push(x);
        }
        if stop {
            let r = SequenceOutcome { end: SequenceEnd::Cancelled, ran, skipped: skipped_labels };
            proof {
                assert(run_trace(steps@, model, countdown, t, r));
                lemma_run_record_blocks(log, steps@, model, rows, r, ran as int);
            }
            return r;
        }
        let ghost hmid = host.log();
        let gone = count_down(row, total, step, countdown, host);
        proof {
            let answers = choose|a: Seq<WaitOutcome>|
                #[trigger] countdown_went(a, countdown.ticks, gone) && host.log() == hmid + tick_calls(
                    row,
                    total,
                    *step,
                    countdown.tick,
                    countdown.ticks,
                    a,
                );
            let calls = tick_calls(row, total, *step, countdown.tick, countdown.ticks, answers);
            lemma_hosts_parts(calls);
            lemma_parts_append(t, hosts(calls));
            lemma_run_append(steps@, model, countdown, run_start(), t, hosts(calls));
            if countdown.ticks >= 1 {
                lemma_ticks(steps@, model, countdown, phase_to(s0, RunPhase::Tick { k, left: countdown.ticks }), k, answers);
                if !gone {
                    assert(answers.len() == countdown.ticks);
                    if answers.len() > 0 {
                        assert(answers.last() == answers[answers.len() - 1]);
                    }
                }
            } else {
                assert(answers.len() == 0);
                assert(hosts(calls) =~= Seq::<Interaction>::empty());
            }
            assert(device_part(t + hosts(calls)) =~= log);
            assert(host.log() =~= hpre + host_part(t + hosts(calls)));
            t = t + hosts(calls);
        }
        if gone {
            let r = SequenceOutcome { end: SequenceEnd::Cancelled, ran, skipped: skipped_labels };
            proof {
                assert(run_trace(steps@, model, countdown, t, r));
                lemma_run_record_blocks(log, steps@, model, rows, r, ran as int);
            }
            return r;
        }
        assert(run_from(steps@, model, countdown, run_start(), t) == Some(phase_to(s0, RunPhase::Announce { k })));
        host.emit(SequenceEvent::Step { row, total, step });
        proof {
            let x = Interaction::Host(HostCall::Event(EventView::Step { row, total, step: *step }));
            lemma_parts_push(t, x);
            lemma_run_push(steps@, model, countdown, run_start(), t, x);
            t = t.push(x);
        }
        let (run, Ghost(ts)) = play_step(device, step, model, host);
        proof {
            let c = device_part(ts);
            lemma_parts_append(t, ts);
            lemma_run_append(steps@, model, countdown, run_start(), t, ts);
            lemma_step(steps@, model, countdown, phase_to(s0, RunPhase::Upload { k }), k, ts, run);
            lemma_blocks_extend(log, c, steps@, model, rows, ran as int);
            assert(D::modelled() ==> device.calls() =~= pre + (log + c));
            assert(host.log() =~= hpre + host_part(t + ts));
            t = t + ts;
            log = log + c;
        }
        match run {
            StepRun::UploadFailed(e) => {
                let r = SequenceOutcome { end: e.into_end(), ran, skipped: skipped_labels };
                proof {
                    assert(run_trace(steps@, model, countdown, t, r));
                    lemma_run_record_failed_upload(log, steps@, model, rows, r, ran as int);
                }
                return r;
            },
            StepRun::Played(Err(e), _) => {
                let r = SequenceOutcome { end: e.into_end(), ran, skipped: skipped_labels };
                proof {
                    assert(run_trace(steps@, model, countdown, t, r));
                    assert(step_block(log, ran as int, steps@[rows[ran as int]], model));
                    lemma_run_record_failed_play(log, steps@, model, rows, r, ran as int);
                }
                return r;
            },
            StepRun::Played(Ok(()), outcome) => {
                proof {
                    assert(step_block(log, ran as int, steps@[rows[ran as int]], model));
                    assert(block_played(log, ran as int));
                }
                ran = ran + 1;
                host.emit(SequenceEvent::Done { row, total });
                proof {
                    let x = Interaction::Host(HostCall::Event(EventView::Done { row, total }));
                    lemma_parts_push(t, x);
                    lemma_run_push(steps@, model, countdown, run_start(), t, x);
                    t = t.push(x);
                }
                if outcome == WaitOutcome::Cancelled {
                    let r = SequenceOutcome { end: SequenceEnd::Cancelled, ran, skipped: skipped_labels };
                    proof {
                        assert(run_trace(steps@, model, countdown, t, r));
                        lemma_run_record_blocks(log, steps@, model, rows, r, ran as int);
                    }
                    return r;
                }
            },
        }
        row = row + 1;
    }
    let r = SequenceOutcome { end: SequenceEnd::Completed, ran, skipped: skipped_labels };
    proof {
        assert(run_trace(steps@, model, countdown, t, r));
        lemma_run_record_blocks(log, steps@, model, rows, r, ran as int);
    }
    r
}

/// An interaction by which a host asks a run to stop: a read of the cancel
/// flag that found it set, or a wait that answered `Cancelled`.
pub open spec fn asks_to_stop(x: Interaction) -> bool {
    match x {
        Interaction::Host(HostCall::Check(c)) => c,
        Interaction::Host(HostCall::Wait(_, a)) => a == WaitOutcome::Cancelled,
        _ => false,
    }
}

/// A device operation that failed where a run looks at the result: setting
/// the gain, uploading, or starting an effect.
pub open spec fn device_failed(x: Interaction) -> bool {
    match x {
        Interaction::Device(FfCall::Gain(_, r)) => r is Err,
        Interaction::Device(FfCall::Upload(_, r)) => r is Err,
        Interaction::Device(FfCall::Play(_, v, r)) => v != 0 && r is Err,
        _ => false,
    }
}

/// No wait behind `p` answered `Cancelled`, and `p` is no cancelled end.
spec fn quiet(p: RunPhase) -> bool {
    match p {
        RunPhase::Stop { waited, .. } => waited == WaitOutcome::Completed,
        RunPhase::Erase { waited, .. } => waited == WaitOutcome::Completed,
        RunPhase::Finish { waited, .. } => waited == WaitOutcome::Completed,
        RunPhase::Ended(e) => e != SequenceEnd::Cancelled,
        _ => true,
    }
}

/// No start behind `p` failed, and `p` is no failed end.
spec fn sound(p: RunPhase) -> bool {
    match p {
        RunPhase::Stop { started, .. } => started is Ok,
        RunPhase::Erase { started, .. } => started is Ok,
        RunPhase::Ended(e) => e == SequenceEnd::Completed || e == SequenceEnd::Cancelled,
        _ => true,
    }
}

/// `s` counts its steps right: `ran` is the number of runnable steps
/// already played, and a completed run played them all.
spec fn counted(steps: Seq<SimStep>, s: RunState) -> bool {
    let n = runnable_rows(steps, s.bits, steps.len()).len();
    match s.phase {
        RunPhase::Start => s.ran == 0,
        RunPhase::SkipNotice => s.ran == 0,
        RunPhase::Gain => s.ran == 0 && n > 0,
        RunPhase::Check { k } => s.ran == k && k < n,
        RunPhase::Tick { k, .. } => s.ran == k && k < n,
        RunPhase::TickWait { k, .. } => s.ran == k && k < n,
        RunPhase::Announce { k } => s.ran == k && k < n,
        RunPhase::Upload { k } => s.ran == k && k < n,
        RunPhase::Begin { k, .. } => s.ran == k && k < n,
        RunPhase::Hold { k, .. } => s.ran == k && k < n,
        RunPhase::Stop { k, .. } => s.ran == k && k < n,
        RunPhase::Erase { k, .. } => s.ran == k && k < n,
        RunPhase::Finish { k, .. } => s.ran == k + 1 && k < n,
        RunPhase::Ended(e) => e == SequenceEnd::Completed ==> s.ran == n,
    }
}

/// One step of a run keeps what [`lemma_run_facts`] states.
#[verifier::rlimit(50)]
proof fn lemma_next_facts(steps: Seq<SimStep>, model: WheelModel, cd: Countdown, s: RunState, x: Interaction)
    requires
        next(steps, model, cd, s, x) is Some,
        counted(steps, s),
    ensures
        ({
            let s2 = next(steps, model, cd, s, x)->Some_0;
            &&& quiet(s.phase) && !asks_to_stop(x) ==> quiet(s2.phase)
            &&& sound(s.phase) && !device_failed(x) ==> sound(s2.phase)
            &&& counted(steps, s2)
            &&& s.phase is Start ==> (x matches Interaction::Device(FfCall::Bits(b)) && s2.bits == b@)
            &&& !(s.phase is Start) ==> s2.bits == s.bits
            &&& !(s2.phase is Start)
            &&& s2.phase is SkipNotice ==> s.phase is Start
            &&& s2.phase is Finish ==> is_erase(x)
            &&& s2.phase is Upload ==> is_step_notice(x)
        }),
{
    match s.phase {
        RunPhase::Start => {},
        RunPhase::SkipNotice => {},
        RunPhase::Gain => {},
        RunPhase::Check { k } => {},
        RunPhase::Tick { k, left } => {},
        RunPhase::TickWait { k, left } => {},
        RunPhase::Announce { k } => {},
        RunPhase::Upload { k } => {},
        RunPhase::Begin { k, id } => {},
        RunPhase::Hold { k, id } => {},
        RunPhase::Stop { k, id, started, waited } => {},
        RunPhase::Erase { k, id, started, waited } => {},
        RunPhase::Finish { k, waited } => {},
        RunPhase::Ended(_) => {},
    }
}

/// What holds of every state a run reaches.
proof fn lemma_run_facts(steps: Seq<SimStep>, model: WheelModel, cd: Countdown, t: Seq<Interaction>)
    requires
        run_from(steps, model, cd, run_start(), t) is Some,
    ensures
        ({
            let s = run_from(steps, model, cd, run_start(), t)->Some_0;
            &&& (forall|i: int| 0 <= i < t.len() ==> !asks_to_stop(#[trigger] t[i])) ==> quiet(s.phase)
            &&& (forall|i: int| 0 <= i < t.len() ==> !device_failed(#[trigger] t[i])) ==> sound(s.phase)
            &&& counted(steps, s)
            &&& t.len() > 0 ==> (t[0] matches Interaction::Device(FfCall::Bits(b)) && s.bits == b@)
            &&& t.len() == 0 <==> s.phase is Start
            &&& s.phase is SkipNotice ==> t.len() == 1
            &&& s.phase is Finish ==> t.len() > 0 && is_erase(t.last())
            &&& s.phase is Upload ==> t.len() > 0 && is_step_notice(t.last())
        }),
    decreases t.len(),
{
    if t.len() > 0 {
        let p = t.drop_last();
        lemma_run_facts(steps, model, cd, p);
        let sp = run_from(steps, model, cd, run_start(), p)->Some_0;
        lemma_next_facts(steps, model, cd, sp, t.last());
        if forall|i: int| 0 <= i < t.len() ==> !asks_to_stop(#[trigger] t[i]) {
            assert forall|i: int| 0 <= i < p.len() implies !asks_to_stop(#[trigger] p[i]) by {
                assert(p[i] == t[i]);
            }
            assert(!asks_to_stop(t[t.len() - 1]));
        }
        if forall|i: int| 0 <= i < t.len() ==> !device_failed(#[trigger] t[i]) {
            assert forall|i: int| 0 <= i < p.len() implies !device_failed(#[trigger] p[i]) by {
                assert(p[i] == t[i]);
            }
            assert(!device_failed(t[t.len() - 1]));
        }
        if p.len() > 0 {
            assert(p[0] == t[0]);
        } else {
            assert(t.last() == t[0]);
        }
    }
}

/// A run ends `Cancelled` only because its host asked it to stop: a read
/// of the cancel flag found it set, or a wait answered `Cancelled`.
pub proof fn lemma_cancel_has_a_cause(
    steps: Seq<SimStep>,
    model: WheelModel,
    cd: Countdown,
    t: Seq<Interaction>,
    outcome: SequenceOutcome,
)
    requires
        run_trace(steps, model, cd, t, outcome),
        outcome.end == SequenceEnd::Cancelled,
    ensures
        exists|i: int| 0 <= i < t.len() && asks_to_stop(#[trigger] t[i]),
{
    lemma_run_facts(steps, model, cd, t);
}

/// A run whose host never asks it to stop and whose device never fails
/// plays every step the capability bitmap it read allows, and completes.
pub proof fn lemma_undisturbed_run_completes(
    steps: Seq<SimStep>,
    model: WheelModel,
    cd: Countdown,
    t: Seq<Interaction>,
    outcome: SequenceOutcome,
)
    requires
        run_trace(steps, model, cd, t, outcome),
        forall|i: int| 0 <= i < t.len() ==> !asks_to_stop(#[trigger] t[i]),
        forall|i: int| 0 <= i < t.len() ==> !device_failed(#[trigger] t[i]),
    ensures
        outcome.end == SequenceEnd::Completed,
        t.len() > 0,
        t[0] is Device,
        t[0]->Device_0 is Bits,
        outcome.ran == runnable_rows(steps, t[0]->Device_0->Bits_0@, steps.len()).len(),
{
    lemma_run_facts(steps, model, cd, t);
    if t.len() == 0 {
        assert(run_from(steps, model, cd, run_start(), t) == Some(run_start()));
    }
}

/// How many interactions a run still makes, at most, once it was asked to
/// stop and is in phase `p`.
spec fn stop_rank(p: RunPhase) -> nat {
    match p {
        RunPhase::Stop { .. } => 3,
        RunPhase::Erase { .. } => 2,
        RunPhase::Finish { .. } => 1,
        _ => 0,
    }
}

/// `p` is where a run stands once it was asked to stop: ended cancelled,
/// or winding down a step whose wait answered `Cancelled`.
spec fn winding_down(p: RunPhase) -> bool {
    match p {
        RunPhase::Stop { started, waited, .. } => started is Ok && waited == WaitOutcome::Cancelled,
        RunPhase::Erase { started, waited, .. } => started is Ok && waited == WaitOutcome::Cancelled,
        RunPhase::Finish { waited, .. } => waited == WaitOutcome::Cancelled,
        RunPhase::Ended(e) => e == SequenceEnd::Cancelled,
        _ => false,
    }
}

proof fn lemma_run_one(steps: Seq<SimStep>, model: WheelModel, cd: Countdown, s: RunState, x: Interaction, rest: Seq<Interaction>)
    ensures
        run_from(steps, model, cd, s, seq![x] + rest) == match next(steps, model, cd, s, x) {
            None => None,
            Some(s2) => run_from(steps, model, cd, s2, rest),
        },
{
    lemma_run_append(steps, model, cd, s, seq![x], rest);
    lemma_run_push(steps, model, cd, s, Seq::empty(), x);
    assert(seq![x] =~= Seq::<Interaction>::empty().push(x));
}

/// Once asked to stop, a run only stops and erases the effect playing,
/// announces that step done, and ends cancelled.
proof fn lemma_winding_down(steps: Seq<SimStep>, model: WheelModel, cd: Countdown, s: RunState, rest: Seq<Interaction>)
    requires
        winding_down(s.phase),
        run_from(steps, model, cd, s, rest) matches Some(e) && e.phase is Ended,
    ensures
        run_from(steps, model, cd, s, rest)->Some_0.phase == RunPhase::Ended(SequenceEnd::Cancelled),
        rest.len() <= stop_rank(s.phase),
        forall|i: int| 0 <= i < rest.len() ==> !((#[trigger] rest[i]) matches Interaction::Device(FfCall::Upload(_, _))),
    decreases rest.len(),
{
    if rest.len() == 0 {
        assert(run_from(steps, model, cd, s, rest) == Some(s));
    } else {
        let x = rest[0];
        let tail = rest.skip(1);
        assert(rest =~= seq![x] + tail);
        lemma_run_one(steps, model, cd, s, x, tail);
        let s2 = next(steps, model, cd, s, x)->Some_0;
        lemma_winding_down(steps, model, cd, s2, tail);
        assert forall|i: int| 0 <= i < rest.len() implies !((#[trigger] rest[i]) matches Interaction::Device(
            FfCall::Upload(_, _),
        )) by {
            if i > 0 {
                assert(rest[i] == tail[i - 1]);
            }
        }
    }
}

/// A run is stopped promptly: once a read of the cancel flag finds it set,
/// or a wait answers `Cancelled`, the run uploads nothing more, makes at
/// most three more interactions (stopping and erasing the effect playing,
/// and announcing that step done), and ends `Cancelled`.
pub proof fn lemma_stop_is_prompt(
    steps: Seq<SimStep>,
    model: WheelModel,
    cd: Countdown,
    t: Seq<Interaction>,
    outcome: SequenceOutcome,
    j: int,
)
    requires
        run_trace(steps, model, cd, t, outcome),
        0 <= j < t.len(),
        asks_to_stop(t[j]),
    ensures
        outcome.end == SequenceEnd::Cancelled,
        t.len() <= j + 4,
        forall|i: int| j < i < t.len() ==> !((#[trigger] t[i]) matches Interaction::Device(FfCall::Upload(_, _))),
{
    let head = t.take(j);
    let rest = t.skip(j + 1);
    assert(t =~= head.push(t[j]) + rest);
    lemma_run_append(steps, model, cd, run_start(), head.push(t[j]), rest);
    lemma_run_push(steps, model, cd, run_start(), head, t[j]);
    let s0 = run_from(steps, model, cd, run_start(), head)->Some_0;
    let s1 = next(steps, model, cd, s0, t[j])->Some_0;
    assert(winding_down(s1.phase));
    lemma_winding_down(steps, model, cd, s1, rest);
    assert forall|i: int| j < i < t.len() implies !((#[trigger] t[i]) matches Interaction::Device(
        FfCall::Upload(_, _),
    )) by {
        assert(t[i] == rest[i - j - 1]);
    }
}

/// What follows the upload of effect `id`, in `r`: its start, at most one
/// wait (the step's hold), its stop and its erase, with nothing between.
pub open spec fn block_follows(r: Seq<Interaction>, id: i16) -> bool {
    &&& r.len() >= 3
    &&& r[0] matches Interaction::Device(FfCall::Play(i, v, _)) && i == id && v == 1
    &&& if r[1] is Host {
        &&& r[1] matches Interaction::Host(HostCall::Wait(_, _))
        &&& r.len() >= 4
        &&& r[2] matches Interaction::Device(FfCall::Play(i, v, _)) && i == id && v == 0
        &&& r[3] == Interaction::Device(FfCall::Erase(id))
    } else {
        &&& r[1] matches Interaction::Device(FfCall::Play(i, v, _)) && i == id && v == 0
        &&& r[2] == Interaction::Device(FfCall::Erase(id))
    }
}

/// From a state that is not over, a run that ends makes another interaction.
proof fn lemma_more_to_come(steps: Seq<SimStep>, model: WheelModel, cd: Countdown, s: RunState, rest: Seq<Interaction>)
    requires
        !(s.phase is Ended),
        run_from(steps, model, cd, s, rest) matches Some(e) && e.phase is Ended,
    ensures
        rest.len() > 0,
        rest =~= seq![rest[0]] + rest.skip(1),
        run_from(steps, model, cd, s, rest) == match next(steps, model, cd, s, rest[0]) {
            None => None,
            Some(s2) => run_from(steps, model, cd, s2, rest.skip(1)),
        },
{
    if rest.len() == 0 {
        assert(run_from(steps, model, cd, s, rest) == Some(s));
    } else {
        assert(rest =~= seq![rest[0]] + rest.skip(1));
        lemma_run_one(steps, model, cd, s, rest[0], rest.skip(1));
    }
}

/// A run that started effect `id`'s step and then ended went on as
/// [`block_follows`] says.
proof fn lemma_block_tail(steps: Seq<SimStep>, model: WheelModel, cd: Countdown, s: RunState, id: i16, rest: Seq<Interaction>)
    requires
        s.phase matches RunPhase::Begin { id: i, .. } && i == id,
        run_from(steps, model, cd, s, rest) matches Some(e) && e.phase is Ended,
    ensures
        block_follows(rest, id),
{
    lemma_more_to_come(steps, model, cd, s, rest);
    let r1 = rest.skip(1);
    let s1 = next(steps, model, cd, s, rest[0])->Some_0;
    lemma_more_to_come(steps, model, cd, s1, r1);
    let r2 = r1.skip(1);
    let s2 = next(steps, model, cd, s1, r1[0])->Some_0;
    lemma_more_to_come(steps, model, cd, s2, r2);
    let r3 = r2.skip(1);
    let s3 = next(steps, model, cd, s2, r2[0])->Some_0;
    assert(rest[1] == r1[0]);
    assert(rest[2] == r2[0]);
    if s1.phase is Hold {
        lemma_more_to_come(steps, model, cd, s3, r3);
        assert(rest[3] == r3[0]);
    }
}

/// No effect outlives its step, and nothing comes between: after an upload
/// that returned `Ok(id)`, a run next starts `id`, waits at most once (the
/// step's hold), stops `id` and erases it; no event, flag read or other
/// device call comes in between.
pub proof fn lemma_upload_then_stop_and_erase(
    steps: Seq<SimStep>,
    model: WheelModel,
    cd: Countdown,
    t: Seq<Interaction>,
    outcome: SequenceOutcome,
    j: int,
)
    requires
        run_trace(steps, model, cd, t, outcome),
        0 <= j < t.len(),
        t[j] matches Interaction::Device(FfCall::Upload(_, res)) && res is Ok,
    ensures
        block_follows(t.skip(j + 1), t[j]->Device_0->Upload_1->Ok_0),
{
    let head = t.take(j);
    let rest = t.skip(j + 1);
    assert(t =~= head.push(t[j]) + rest);
    lemma_run_append(steps, model, cd, run_start(), head.push(t[j]), rest);
    lemma_run_push(steps, model, cd, run_start(), head, t[j]);
    let s0 = run_from(steps, model, cd, run_start(), head)->Some_0;
    let s1 = next(steps, model, cd, s0, t[j])->Some_0;
    lemma_block_tail(steps, model, cd, s1, t[j]->Device_0->Upload_1->Ok_0, rest);
}

/// `x` hands the front-end a skip list.
pub open spec fn is_skip_notice(x: Interaction) -> bool {
    x matches Interaction::Host(HostCall::Event(EventView::Skipped(_)))
}

/// The run through `t` passed through the state after `t.take(i)`.
proof fn lemma_prefix_runs(steps: Seq<SimStep>, model: WheelModel, cd: Countdown, t: Seq<Interaction>, i: int)
    requires
        run_from(steps, model, cd, run_start(), t) is Some,
        0 <= i < t.len(),
    ensures
        run_from(steps, model, cd, run_start(), t.take(i)) is Some,
        run_from(steps, model, cd, run_start(), t.take(i + 1)) == next(
            steps,
            model,
            cd,
            run_from(steps, model, cd, run_start(), t.take(i))->Some_0,
            t[i],
        ),
        next(steps, model, cd, run_from(steps, model, cd, run_start(), t.take(i))->Some_0, t[i]) is Some,
{
    assert(t =~= t.take(i + 1) + t.skip(i + 1));
    lemma_run_append(steps, model, cd, run_start(), t.take(i + 1), t.skip(i + 1));
    assert(t.take(i + 1) =~= t.take(i).push(t[i]));
    lemma_run_push(steps, model, cd, run_start(), t.take(i), t[i]);
}

/// The skip list is announced once, first: a run hands the front-end a
/// `Skipped` event exactly when the capability bitmap it read leaves some
/// step unsupported, right after reading the bitmap and before anything
/// else, and never again; the event names every unsupported row, with its
/// label, in table order.
pub proof fn lemma_skip_list_comes_first_and_once(
    steps: Seq<SimStep>,
    model: WheelModel,
    cd: Countdown,
    t: Seq<Interaction>,
    outcome: SequenceOutcome,
)
    requires
        run_trace(steps, model, cd, t, outcome),
    ensures
        t.len() > 0,
        t[0] is Device,
        t[0]->Device_0 is Bits,
        ({
            let skipped = skipped_rows(steps, t[0]->Device_0->Bits_0@, steps.len());
            &&& skipped.len() > 0 ==> t.len() > 1 && t[1] == Interaction::Host(
                HostCall::Event(EventView::Skipped(skipped)),
            )
            &&& forall|i: int|
                0 <= i < t.len() && is_skip_notice(#[trigger] t[i]) ==> i == 1 && skipped.len() > 0
        }),
{
    lemma_run_facts(steps, model, cd, t);
    if t.len() == 0 {
        assert(run_from(steps, model, cd, run_start(), t) == Some(run_start()));
    }
    let skipped = skipped_rows(steps, t[0]->Device_0->Bits_0@, steps.len());
    lemma_prefix_runs(steps, model, cd, t, 0);
    assert(t.take(0) =~= Seq::<Interaction>::empty());
    assert(run_from(steps, model, cd, run_start(), t.take(0)) == Some(run_start()));
    let s1 = next(steps, model, cd, run_start(), t[0])->Some_0;
    if skipped.len() > 0 {
        assert(s1.phase is SkipNotice);
        if t.len() == 1 {
            assert(t =~= t.take(1));
        } else {
            lemma_prefix_runs(steps, model, cd, t, 1);
            assert(t.take(1) =~= seq![t[0]]);
            lemma_run_facts(steps, model, cd, t.take(1));
        }
    }
    assert forall|i: int|
        0 <= i < t.len() && is_skip_notice(#[trigger] t[i]) implies i == 1 && skipped.len() > 0 by {
        lemma_prefix_runs(steps, model, cd, t, i);
        lemma_run_facts(steps, model, cd, t.take(i));
        if i > 0 {
            assert(t.take(i)[0] == t[0]);
        }
    }
}

/// `x` announces a step as done.
pub open spec fn is_done_notice(x: Interaction) -> bool {
    x matches Interaction::Host(HostCall::Event(EventView::Done { .. }))
}

/// `x` erases an effect.
pub open spec fn is_erase(x: Interaction) -> bool {
    x matches Interaction::Device(FfCall::Erase(_))
}

/// `x` announces a step as playing.
pub open spec fn is_step_notice(x: Interaction) -> bool {
    x matches Interaction::Host(HostCall::Event(EventView::Step { .. }))
}

/// `x` uploads an effect.
pub open spec fn is_upload(x: Interaction) -> bool {
    x matches Interaction::Device(FfCall::Upload(_, _))
}

/// A step is announced as done only right after its effect was erased, and
/// an effect is uploaded only right after its step was announced as
/// playing.
pub proof fn lemma_done_follows_erase_and_upload_follows_step(
    steps: Seq<SimStep>,
    model: WheelModel,
    cd: Countdown,
    t: Seq<Interaction>,
    outcome: SequenceOutcome,
)
    requires
        run_trace(steps, model, cd, t, outcome),
    ensures
        forall|i: int|
            0 <= i < t.len() && is_done_notice(#[trigger] t[i]) ==> i > 0 && is_erase(t[i - 1]),
        forall|i: int|
            0 <= i < t.len() && is_upload(#[trigger] t[i]) ==> i > 0 && is_step_notice(t[i - 1]),
{
    assert forall|i: int| 0 <= i < t.len() && is_done_notice(#[trigger] t[i]) implies i > 0 && is_erase(
        t[i - 1],
    ) by {
        lemma_prefix_runs(steps, model, cd, t, i);
        lemma_run_facts(steps, model, cd, t.take(i));
        if i > 0 {
            assert(t.take(i).last() == t[i - 1]);
        }
    }
    assert forall|i: int| 0 <= i < t.len() && is_upload(#[trigger] t[i]) implies i > 0 && is_step_notice(
        t[i - 1],
    ) by {
        lemma_prefix_runs(steps, model, cd, t, i);
        lemma_run_facts(steps, model, cd, t.take(i));
        if i > 0 {
            assert(t.take(i).last() == t[i - 1]);
        }
    }
}

/// Runnable rows come in table order, each once.
proof fn lemma_rows_increase(steps: Seq<SimStep>, bits: Seq<u8>, r: nat)
    requires
        r <= steps.len(),
    ensures
        forall|a: int, b: int|
            0 <= a < b < runnable_rows(steps, bits, r).len() ==> #[trigger] runnable_rows(steps, bits, r)[a]
                < #[trigger] runnable_rows(steps, bits, r)[b],
    decreases r,
{
    if r > 0 {
        lemma_rows_increase(steps, bits, (r - 1) as nat);
        lemma_rows_split(steps, bits, (r - 1) as nat);
    }
}

/// Each step is uploaded at most once, in table order, and an effect is
/// erased only if its upload succeeded: the `m`-th upload of a run is of
/// its `m`-th runnable step, and every erase is of the effect whose
/// successful upload came three calls before it. With
/// [`lemma_every_upload_is_erased`], each successful upload is erased
/// exactly once and a failed one never.
pub proof fn lemma_uploads_in_order_and_erases_match(
    calls: Seq<FfCall>,
    steps: Seq<SimStep>,
    model: WheelModel,
    outcome: SequenceOutcome,
)
    requires
        run_record(calls, steps, model, outcome),
    ensures
        ({
            let rows = runnable_rows(steps, calls[0]->Bits_0@, steps.len());
            &&& forall|a: int, b: int| 0 <= a < b < rows.len() ==> #[trigger] rows[a] < #[trigger] rows[b]
            &&& forall|j: int|
                0 <= j < calls.len() && (#[trigger] calls[j]) is Upload ==> {
                    &&& j >= 2
                    &&& (j - 2) % 4 == 0
                    &&& (j - 2) / 4 < rows.len()
                    &&& is_effect_for(calls[j]->Upload_0, steps[rows[(j - 2) / 4]], model)
                }
            &&& forall|e: int|
                0 <= e < calls.len() && (#[trigger] calls[e]) is Erase ==> {
                    &&& e >= 3
                    &&& calls[e - 3] is Upload
                    &&& calls[e - 3]->Upload_1 == Ok::<i16, DeviceError>(calls[e]->Erase_0)
                }
        }),
{
    let bits = calls[0]->Bits_0@;
    let rows = runnable_rows(steps, bits, steps.len());
    lemma_rows_increase(steps, bits, steps.len());
    assert forall|j: int| 0 <= j < calls.len() && (#[trigger] calls[j]) is Upload || 0 <= j < calls.len()
        && calls[j] is Erase implies {
        &&& calls[j] is Upload ==> {
            &&& j >= 2
            &&& (j - 2) % 4 == 0
            &&& (j - 2) / 4 < rows.len()
            &&& is_effect_for(calls[j]->Upload_0, steps[rows[(j - 2) / 4]], model)
        }
        &&& calls[j] is Erase ==> {
            &&& j >= 3
            &&& calls[j - 3] is Upload
            &&& calls[j - 3]->Upload_1 == Ok::<i16, DeviceError>(calls[j]->Erase_0)
        }
    } by {
        assert(j >= 2);
        assert(rows.len() > 0);
        assert(calls[1]->Gain_1 is Ok);
        let n = calls.len() - 2;
        let k = n / 4;
        let m = (j - 2) / 4;
        let q = (j - 2) % 4;
        assert(j - 2 == 4 * m + q && 0 <= q < 4) by (nonlinear_arith)
            requires
                j >= 2,
                m == (j - 2) / 4,
                q == (j - 2) % 4,
        ;
        assert(n == 4 * k + n % 4 && 0 <= n % 4 < 4) by (nonlinear_arith)
            requires
                n >= 0,
                k == n / 4,
        ;
        if m < k {
            assert(step_block(calls, m, steps[rows[m]], model));
        } else {
            assert(m == k && q == 0 && n % 4 == 1);
        }
    }
}

/// Every row counted runnable has a supported step.
proof fn lemma_rows_supported(steps: Seq<SimStep>, bits: Seq<u8>, r: nat)
    requires
        r <= steps.len(),
    ensures
        forall|m: int|
            0 <= m < runnable_rows(steps, bits, r).len() ==> 0 <= #[trigger] runnable_rows(
                steps,
                bits,
                r,
            )[m] < r && step_supported(bits, steps[runnable_rows(steps, bits, r)[m]]),
    decreases r,
{
    if r > 0 {
        lemma_rows_supported(steps, bits, (r - 1) as nat);
        let p = runnable_rows(steps, bits, (r - 1) as nat);
        assert forall|m: int| 0 <= m < runnable_rows(steps, bits, r).len() implies 0
            <= #[trigger] runnable_rows(steps, bits, r)[m] < r && step_supported(
            bits,
            steps[runnable_rows(steps, bits, r)[m]],
        ) by {
            if m < p.len() {
                assert(runnable_rows(steps, bits, r)[m] == p[m]);
            }
        }
    }
}

/// No effect slot leaks, and only what the device supports is uploaded:
/// in every run, each effect uploaded successfully is started, stopped and
/// erased by the next three calls, before anything else; every upload is
/// of a type the capability bitmap the run read marks supported.
pub proof fn lemma_every_upload_is_erased(
    calls: Seq<FfCall>,
    steps: Seq<SimStep>,
    model: WheelModel,
    outcome: SequenceOutcome,
)
    requires
        run_record(calls, steps, model, outcome),
    ensures
        forall|j: int|
            0 <= j < calls.len() && (#[trigger] calls[j]) is Upload ==> type_supported(
                calls[0]->Bits_0@,
                calls[j]->Upload_0.type_,
            ),
        forall|j: int|
            0 <= j < calls.len() && (#[trigger] calls[j]) is Upload && calls[j]->Upload_1 is Ok
                ==> {
                &&& j + 3 < calls.len()
                &&& calls[j + 1] is Play
                &&& calls[j + 1]->Play_0 == upload_id(calls[j])
                &&& calls[j + 1]->Play_1 == 1
                &&& calls[j + 2] is Play
                &&& calls[j + 2]->Play_0 == upload_id(calls[j])
                &&& calls[j + 2]->Play_1 == 0
                &&& calls[j + 3] == FfCall::Erase(upload_id(calls[j]))
            },
{
    let bits = calls[0]->Bits_0@;
    let rows = runnable_rows(steps, bits, steps.len());
    lemma_rows_supported(steps, bits, steps.len());
    assert forall|j: int| 0 <= j < calls.len() && (#[trigger] calls[j]) is Upload implies {
        &&& type_supported(calls[0]->Bits_0@, calls[j]->Upload_0.type_)
        &&& calls[j]->Upload_1 is Ok ==> {
            &&& j + 3 < calls.len()
            &&& calls[j + 1] is Play
            &&& calls[j + 1]->Play_0 == upload_id(calls[j])
            &&& calls[j + 1]->Play_1 == 1
            &&& calls[j + 2] is Play
            &&& calls[j + 2]->Play_0 == upload_id(calls[j])
            &&& calls[j + 2]->Play_1 == 0
            &&& calls[j + 3] == FfCall::Erase(upload_id(calls[j]))
        }
    } by {
        assert(j >= 2);
        assert(rows.len() > 0);
        assert(calls[1]->Gain_1 is Ok);
        let n = calls.len() - 2;
        let k = n / 4;
        let m = (j - 2) / 4;
        let q = (j - 2) % 4;
        assert(j - 2 == 4 * m + q && 0 <= q < 4) by (nonlinear_arith)
            requires
                j >= 2,
                m == (j - 2) / 4,
                q == (j - 2) % 4,
        ;
        assert(n == 4 * k + n % 4 && 0 <= n % 4 < 4) by (nonlinear_arith)
            requires
                n >= 0,
                k == n / 4,
        ;
        if m < k {
            assert(step_block(calls, m, steps[rows[m]], model));
            assert(q == 0);
        } else {
            assert(m == k && q == 0 && n % 4 == 1);
        }
    }
}

} // verus!
