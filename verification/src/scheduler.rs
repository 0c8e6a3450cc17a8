//! The cooperative clock scheduler: three deadline-based virtual clocks —
//! CPU cycles, timer decrements and periodic statistics — advanced from a
//! single wall clock given in nanoseconds, sharing one machine state.
//!
//! Each clock keeps a deadline rather than an accumulating counter; firing
//! pushes the deadline one fixed period on, from the old deadline and never
//! from "now", so the long-run rate does not drift while the loop keeps up.

use vstd::prelude::*;

use crate::chip8::{Chip8, MachineView, random_byte, spec_cycle, spec_timer_step};

verus! {

/// Nanoseconds in one second.
pub const NANOS_PER_SECOND: u64 = 1_000_000_000;

/// The period, in nanoseconds, of a clock that fires `hz` times a second.
pub open spec fn spec_period(hz: u32) -> int {
    1_000_000_000int / (hz as int)
}

/// Push a deadline one clock period into the future: a clock that runs at
/// `fraction_of_second` ticks per second has a period of
/// `1_000_000_000 / fraction_of_second` nanoseconds.
pub fn extend(timestamp: &mut u64, fraction_of_second: u32)
    requires
        fraction_of_second >= 1,
        *old(timestamp) + spec_period(fraction_of_second) <= u64::MAX,
    ensures
        *final(timestamp) == *old(timestamp) + spec_period(fraction_of_second),
{
    *timestamp = *timestamp + NANOS_PER_SECOND / (fraction_of_second as u64);
}

/// A virtual clock: a deadline that advances by one fixed period per
/// firing, counting how often it has fired.
#[verifier::ext_equal]
pub struct Clock {
    /// The instant this clock started from, in nanoseconds.
    pub start: u64,
    /// Ticks per second.
    pub hz: u32,
    /// The next deadline, in nanoseconds.
    pub deadline: u64,
    /// How many times the clock has fired.
    pub count: u64,
}

impl Clock {
    /// The clock's invariant: a sane rate, and a deadline exactly `count`
    /// periods past the start.
    pub open spec fn inv(&self) -> bool {
        &&& 1 <= self.hz <= 1_000_000_000
        &&& self.deadline == self.start + self.count * spec_period(self.hz)
    }

    /// A clock due to fire `hz` times a second, starting at `start`.
    pub fn new(start: u64, hz: u32) -> (c: Clock)
        requires
            1 <= hz <= 1_000_000_000,
        ensures
            c.inv(),
            c.start == start,
            c.hz == hz,
            c.deadline == start,
            c.count == 0,
    {
        Clock { start, hz, deadline: start, count: 0 }
    }

    /// Whether the wall clock has passed the deadline.
    pub fn due(&self, now: u64) -> (b: bool)
        ensures
            b == (now > self.deadline),
    {
        now > self.deadline
    }

    /// Note one firing: push the deadline one period on.
    pub fn fire(&mut self)
        requires
            old(self).inv(),
            old(self).deadline + spec_period(old(self).hz) <= u64::MAX,
        ensures
            final(self).inv(),
            final(self).hz == old(self).hz,
            final(self).start == old(self).start,
            final(self).count == old(self).count + 1,
            final(self).deadline == old(self).deadline + spec_period(old(self).hz),
    {
        proof {
            let c = old(self).count;
            let h = old(self).hz;
            let p = spec_period(h);
            assert(1_000_000_000int / (h as int) >= 1) by (nonlinear_arith)
                requires
                    1 <= h <= 1_000_000_000u32,
            ;
            assert(c * p >= c * 1) by (nonlinear_arith)
                requires
                    p >= 1,
                    c >= 0,
            ;
            assert((c + 1) * p == c * p + p) by (nonlinear_arith);
        }
        extend(&mut self.deadline, self.hz);
        self.count = self.count + 1;
    }
}

/// The statistics clock: counters for the window under way, flushed every
/// `every_secs` seconds.
#[verifier::ext_equal]
pub struct Stats {
    /// When the current window ends, in nanoseconds.
    pub deadline: u64,
    /// The length of a window, in seconds.
    pub every_secs: u32,
    /// CPU cycles seen in the current window.
    pub cpu_cycles: u32,
    /// Timer ticks seen in the current window.
    pub timer_cycles: u32,
}

/// A flushed statistics report: the average rates over the window just
/// ended.
#[derive(Debug, PartialEq, Eq, Structural, Clone, Copy)]
pub struct StatReport {
    /// Timer ticks per second over the window.
    pub timer_hz: u32,
    /// CPU cycles per second over the window.
    pub cpu_hz: u32,
}

/// The edge to forward to the audio device.  Only transitions of the sound
/// timer's positivity are forwarded, never the level itself.
#[derive(Debug, PartialEq, Eq, Structural, Clone, Copy)]
pub enum ToneAction {
    /// The sound timer became positive: start the tone.
    Start,
    /// The sound timer reached zero: stop the tone.
    Stop,
    /// No transition: leave the device alone.
    Keep,
}

/// What one scheduler iteration asks the collaborators around it to do.
pub struct StepOutcome {
    /// A CPU cycle ran.
    pub ran_cpu: bool,
    /// A timer tick ran.
    pub ran_timers: bool,
    /// The frame buffer changed and should be handed to the renderer.
    pub redraw: bool,
    /// The tone edge for the audio device.
    pub tone: ToneAction,
    /// The statistics report, when a window just ended.
    pub report: Option<StatReport>,
}

/// The whole scheduler state: the three clocks and the tone level last
/// sent to the audio device.
#[verifier::ext_equal]
pub struct Scheduler {
    /// The CPU clock.
    pub cpu: Clock,
    /// The timer clock, decrementing both timers at a fixed rate.
    pub timers: Clock,
    /// The statistics clock.
    pub stats: Stats,
    /// Whether the tone is currently sounding.
    pub playing: bool,
}

/// Whether a clock's invariant holds and its deadline can still be pushed
/// one period on, checked at runtime.
fn clock_ok(c: &Clock) -> (b: bool)
    ensures
        b == (c.inv() && c.deadline + spec_period(c.hz) <= u64::MAX),
{
    if !(1 <= c.hz && c.hz <= 1_000_000_000) {
        return false;
    }
    let p = 1_000_000_000u64 / (c.hz as u64);
    proof {
        assert(1_000_000_000int / (c.hz as int) <= 1_000_000_000) by (nonlinear_arith)
            requires
                c.hz >= 1,
        ;
        assert((c.count as int) * (p as int) <= 0xFFFF_FFFF_FFFF_FFFF * 1_000_000_000)
            by (nonlinear_arith)
            requires
                c.count <= 0xFFFF_FFFF_FFFF_FFFFu64,
                0 <= p <= 1_000_000_000u64,
        ;
    }
    let prod: u128 = (c.count as u128) * (p as u128);
    let lhs: u128 = (c.start as u128) + prod;
    (c.deadline as u128) == lhs && (c.deadline as u128) + (p as u128) <= (u64::MAX as u128)
}

/// The machine after the clocked part of one scheduler iteration: a CPU
/// cycle if the CPU clock was due, then a timer tick if the timer clock
/// was due.
pub open spec fn spec_machine_after(m: MachineView, r: u8, run_cpu: bool, run_timers: bool) -> MachineView {
    let m1 = if run_cpu {
        spec_cycle(m, r)
    } else {
        m
    };
    if run_timers {
        spec_timer_step(m1)
    } else {
        m1
    }
}

/// Everything one scheduler iteration does, as a relation between the
/// scheduler and machine states before and after, given the random byte
/// `r` drawn for the CPU cycle: which clocks fired, how the machine
/// stepped, the redraw handoff, the tone edge, and the statistics flush.
pub open spec fn spec_step(
    pre: Scheduler,
    m0: MachineView,
    now: u64,
    r: u8,
    post: Scheduler,
    m1: MachineView,
    o: StepOutcome,
) -> bool {
    let run_cpu = now > pre.cpu.deadline;
    let run_timers = now > pre.timers.deadline;
    let flush = now > pre.stats.deadline;
    let after = spec_machine_after(m0, r, run_cpu, run_timers);
    let cpu_n: int = if run_cpu {
        pre.stats.cpu_cycles + 1
    } else {
        pre.stats.cpu_cycles as int
    };
    let timer_n: int = if run_timers {
        pre.stats.timer_cycles + 1
    } else {
        pre.stats.timer_cycles as int
    };
    &&& o.ran_cpu == run_cpu
    &&& o.ran_timers == run_timers
    &&& m1 == (MachineView { draw_flag: false, ..after })
    &&& o.redraw == after.draw_flag
    &&& post.cpu == (if run_cpu {
        Clock {
            deadline: (pre.cpu.deadline + spec_period(pre.cpu.hz)) as u64,
            count: (pre.cpu.count + 1) as u64,
            ..pre.cpu
        }
    } else {
        pre.cpu
    })
    &&& post.timers == (if run_timers {
        Clock {
            deadline: (pre.timers.deadline + spec_period(pre.timers.hz)) as u64,
            count: (pre.timers.count + 1) as u64,
            ..pre.timers
        }
    } else {
        pre.timers
    })
    &&& (after.sound_timer > 0 && !pre.playing ==> o.tone == ToneAction::Start && post.playing)
    &&& (after.sound_timer == 0 && pre.playing ==> o.tone == ToneAction::Stop && !post.playing)
    &&& (!(after.sound_timer > 0 && !pre.playing) && !(after.sound_timer == 0 && pre.playing)
        ==> o.tone == ToneAction::Keep && post.playing == pre.playing)
    &&& post.stats.every_secs == pre.stats.every_secs
    &&& (flush ==> {
        &&& o.report == Some(
            StatReport {
                timer_hz: (timer_n / (pre.stats.every_secs as int)) as u32,
                cpu_hz: (cpu_n / (pre.stats.every_secs as int)) as u32,
            },
        )
        &&& post.stats.cpu_cycles == 0
        &&& post.stats.timer_cycles == 0
        &&& post.stats.deadline == pre.stats.deadline + pre.stats.every_secs
            * NANOS_PER_SECOND
    })
    &&& (!flush ==> {
        &&& o.report == None::<StatReport>
        &&& post.stats.cpu_cycles == cpu_n
        &&& post.stats.timer_cycles == timer_n
        &&& post.stats.deadline == pre.stats.deadline
    })
}

impl Scheduler {
    /// The scheduler's invariant, together with the headroom one more
    /// iteration needs: deadlines that can still be extended and counters
    /// that can still count.
    pub open spec fn can_step_spec(&self) -> bool {
        &&& self.cpu.inv()
        &&& self.timers.inv()
        &&& self.stats.every_secs >= 1
        &&& self.cpu.deadline + spec_period(self.cpu.hz) <= u64::MAX
        &&& self.timers.deadline + spec_period(self.timers.hz) <= u64::MAX
        &&& self.stats.deadline + self.stats.every_secs * NANOS_PER_SECOND <= u64::MAX
        &&& self.stats.cpu_cycles < u32::MAX
        &&& self.stats.timer_cycles < u32::MAX
    }

    /// A scheduler whose three clocks all start at `start`.
    pub fn new(start: u64, cpu_hz: u32, timer_hz: u32, stat_secs: u32) -> (s: Scheduler)
        requires
            1 <= cpu_hz <= 1_000_000_000,
            1 <= timer_hz <= 1_000_000_000,
            stat_secs >= 1,
        ensures
            s.cpu == (Clock { start, hz: cpu_hz, deadline: start, count: 0 }),
            s.timers == (Clock { start, hz: timer_hz, deadline: start, count: 0 }),
            s.stats == (Stats { deadline: start, every_secs: stat_secs, cpu_cycles: 0, timer_cycles: 0 }),
            !s.playing,
    {
        Scheduler {
            cpu: Clock::new(start, cpu_hz),
            timers: Clock::new(start, timer_hz),
            stats: Stats { deadline: start, every_secs: stat_secs, cpu_cycles: 0, timer_cycles: 0 },
            playing: false,
        }
    }

    /// The runtime check of `can_step_spec`, for callers outside the
    /// proof.
    pub fn can_step(&self) -> (b: bool)
        ensures
            b == self.can_step_spec(),
    {
        let cpu_ok = clock_ok(&self.cpu);
        let timers_ok = clock_ok(&self.timers);
        proof {
            assert((self.stats.every_secs as int) * (NANOS_PER_SECOND as int) <= 0xFFFF_FFFF
                * 1_000_000_000) by (nonlinear_arith)
                requires
                    self.stats.every_secs <= 0xFFFF_FFFFu32,
            ;
        }
        let budget: u128 = (self.stats.deadline as u128) + (self.stats.every_secs as u128) * (
        NANOS_PER_SECOND as u128);
        let stats_ok = self.stats.every_secs >= 1 && budget <= (u64::MAX as u128)
            && self.stats.cpu_cycles < u32::MAX && self.stats.timer_cycles < u32::MAX;
        cpu_ok && timers_ok && stats_ok
    }

    /// One scheduler iteration, with the random byte for a possible `Cxkk`
    /// passed in: run the CPU if its clock is due, then the timers if
    /// theirs is, hand the redraw flag over, derive the tone edge from the
    /// sound timer's positivity, and flush statistics when their window
    /// ends.
    pub fn step_with_random(&mut self, chip: &mut Chip8, now: u64, r: u8) -> (o: StepOutcome)
        requires
            old(self).can_step_spec(),
            old(chip).wf(),
        ensures
            final(chip).wf(),
            final(self).cpu.inv(),
            final(self).timers.inv(),
            spec_step(*old(self), old(chip)@, now, r, *final(self), final(chip)@, o),
    {
        let ghost pre = *self;
        let ghost m0 = chip@;
        let mut ran_cpu = false;
        if self.cpu.due(now) {
            chip.cycle_with_random(r);
            self.cpu.fire();
            self.stats.cpu_cycles = self.stats.cpu_cycles + 1;
            ran_cpu = true;
        }
        let mut ran_timers = false;
        if self.timers.due(now) {
            chip.timer_step();
            self.timers.fire();
            self.stats.timer_cycles = self.stats.timer_cycles + 1;
            ran_timers = true;
        }
        assert(chip@ == spec_machine_after(m0, r, now > pre.cpu.deadline, now > pre.timers.deadline));
        let redraw = chip.take_redraw();
        let tone = if chip.sound_timer() > 0 && !self.playing {
            self.playing = true;
            ToneAction::Start
        } else if chip.sound_timer() == 0 && self.playing {
            self.playing = false;
            ToneAction::Stop
        } else {
            ToneAction::Keep
        };
        let report = if now > self.stats.deadline {
            let rep = StatReport {
                timer_hz: self.stats.timer_cycles / self.stats.every_secs,
                cpu_hz: self.stats.cpu_cycles / self.stats.every_secs,
            };
            self.stats.timer_cycles = 0;
            self.stats.cpu_cycles = 0;
            self.stats.deadline = self.stats.deadline + (self.stats.every_secs as u64)
                * NANOS_PER_SECOND;
            Some(rep)
        } else {
            None
        };
        let o = StepOutcome { ran_cpu, ran_timers, redraw, tone, report };
        proof {
            assert(chip@ =~= (MachineView {
                draw_flag: false,
                ..spec_machine_after(m0, r, now > pre.cpu.deadline, now > pre.timers.deadline)
            }));
            if now > pre.cpu.deadline {
                assert(self.cpu =~= (Clock {
                    deadline: (pre.cpu.deadline + spec_period(pre.cpu.hz)) as u64,
                    count: (pre.cpu.count + 1) as u64,
                    ..pre.cpu
                }));
            }
            if now > pre.timers.deadline {
                assert(self.timers =~= (Clock {
                    deadline: (pre.timers.deadline + spec_period(pre.timers.hz)) as u64,
                    count: (pre.timers.count + 1) as u64,
                    ..pre.timers
                }));
            }
        }
        o
    }

    /// One scheduler iteration against the real random source.
    pub fn step(&mut self, chip: &mut Chip8, now: u64) -> (o: StepOutcome)
        requires
            old(self).can_step_spec(),
            old(chip).wf(),
        ensures
            final(chip).wf(),
            final(self).cpu.inv(),
            final(self).timers.inv(),
            exists|r: u8| spec_step(*old(self), old(chip)@, now, r, *final(self), final(chip)@, o),
    {
        let r = random_byte();
        self.step_with_random(chip, now, r)
    }
}

/// Timer independence.  Over a one-second window, a scheduler whose CPU
/// clock runs at 500Hz executes the decoder exactly 500 times while a
/// timer clock at 60Hz fires 61 times — about 60, one more than the rate
/// because the period rounds down to 16,666,666ns — however the firings
/// were distributed inside the window.  The premises say only what the
/// scheduler guarantees of any run: each firing happened when the wall
/// clock had passed the then-current deadline at a time inside the window,
/// and both clocks had caught up (deadline at or past the window's end)
/// when it closed.
pub proof fn lemma_timer_independence(cpu: Clock, timers: Clock, end: u64)
    requires
        cpu.inv(),
        timers.inv(),
        cpu.hz == 500,
        timers.hz == 60,
        cpu.start == timers.start,
        end == cpu.start + 1_000_000_000,
        cpu.count > 0 ==> cpu.start + (cpu.count - 1) * spec_period(cpu.hz) < end,
        timers.count > 0 ==> timers.start + (timers.count - 1) * spec_period(timers.hz) < end,
        cpu.deadline >= end,
        timers.deadline >= end,
    ensures
        cpu.count == 500,
        timers.count == 61,
{
    assert(spec_period(500) == 2_000_000);
    assert(spec_period(60) == 16_666_666);
    assert(cpu.count * 2_000_000 >= 1_000_000_000);
    assert(cpu.count >= 500) by (nonlinear_arith)
        requires
            cpu.count * 2_000_000 >= 1_000_000_000,
    ;
    assert((cpu.count - 1) * 2_000_000 < 1_000_000_000);
    assert(cpu.count <= 500) by (nonlinear_arith)
        requires
            (cpu.count - 1) * 2_000_000 < 1_000_000_000,
    ;
    assert(timers.count * 16_666_666 >= 1_000_000_000);
    assert(timers.count >= 61) by (nonlinear_arith)
        requires
            timers.count * 16_666_666 >= 1_000_000_000,
    ;
    assert((timers.count - 1) * 16_666_666 < 1_000_000_000);
    assert(timers.count <= 61) by (nonlinear_arith)
        requires
            (timers.count - 1) * 16_666_666 < 1_000_000_000,
    ;
}

} // verus!
