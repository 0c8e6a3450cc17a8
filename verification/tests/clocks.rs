//! Tests of the scheduler: deadline extension, clock rates over a simulated
//! second, tone edges and statistics flushes.

use chip8::chip8::Chip8;
use chip8::scheduler::{extend, Scheduler, StatReport, ToneAction};

#[test]
fn extend_adds_one_period() {
    let mut t: u64 = 0;
    extend(&mut t, 60);
    assert_eq!(t, 16_666_666);
    extend(&mut t, 500);
    assert_eq!(t, 16_666_666 + 2_000_000);
    extend(&mut t, 1);
    assert_eq!(t, 16_666_666 + 2_000_000 + 1_000_000_000);
}

#[test]
fn timer_independence_over_one_second() {
    // CPU at 500Hz, timers at 60Hz, over a one-second simulated window: the
    // decoder runs 500 times, the timer clock 61 (its period rounds down),
    // and each timer decrements at most its own value, never below zero.
    let mut chip = Chip8::new();
    chip.delay_timer = 200;
    chip.sound_timer = 30;
    let mut sched = Scheduler::new(0, 500, 60, 5);
    let mut now: u64 = 0;
    while now < 1_000_000_000 {
        now += 100_000;
        assert!(sched.can_step());
        sched.step_with_random(&mut chip, now, 0);
    }
    // let both clocks catch up at the window's end
    loop {
        assert!(sched.can_step());
        let o = sched.step_with_random(&mut chip, 1_000_000_000, 0);
        if !o.ran_cpu && !o.ran_timers {
            break;
        }
    }
    assert_eq!(sched.cpu.count, 500);
    assert_eq!(sched.timers.count, 61);
    assert_eq!(chip.delay_timer, 200 - 61);
    assert_eq!(chip.sound_timer, 0);
}

#[test]
fn tone_edges_only_on_transitions() {
    let mut chip = Chip8::new();
    let mut sched = Scheduler::new(0, 500, 60, 5);

    // nothing due at the start instant, no sound: no edge
    let o = sched.step_with_random(&mut chip, 0, 0);
    assert!(!o.ran_cpu && !o.ran_timers);
    assert_eq!(o.tone, ToneAction::Keep);

    // sound timer becomes positive: one start edge, then silence on the level
    chip.sound_timer = 2;
    let o = sched.step_with_random(&mut chip, 0, 0);
    assert_eq!(o.tone, ToneAction::Start);
    let o = sched.step_with_random(&mut chip, 0, 0);
    assert_eq!(o.tone, ToneAction::Keep);

    // sound timer back to zero: one stop edge, then nothing
    chip.sound_timer = 0;
    let o = sched.step_with_random(&mut chip, 0, 0);
    assert_eq!(o.tone, ToneAction::Stop);
    let o = sched.step_with_random(&mut chip, 0, 0);
    assert_eq!(o.tone, ToneAction::Keep);
}

#[test]
fn redraw_handed_over_once() {
    // 00E0 raises the redraw flag; the iteration that runs it reports the
    // redraw and clears the flag, and the next reports nothing
    let mut chip = Chip8::new();
    let rom: Vec<u8> = vec![0x00, 0xE0];
    assert!(chip.load_rom(&rom));
    let mut sched = Scheduler::new(0, 500, 60, 5);
    let o = sched.step_with_random(&mut chip, 1, 0);
    assert!(o.ran_cpu);
    assert!(o.redraw);
    assert!(!chip.draw_flag);
    let o = sched.step_with_random(&mut chip, 1, 0);
    assert!(!o.redraw);
}

#[test]
fn stats_flush_resets_counters() {
    let mut chip = Chip8::new();
    let mut sched = Scheduler::new(0, 500, 60, 5);
    sched.stats.cpu_cycles = 2499;
    sched.stats.timer_cycles = 300;
    // both clocks fire on this iteration too, so the flushed window holds
    // 2500 cycles and 301 ticks
    let o = sched.step_with_random(&mut chip, 1, 0);
    assert!(o.ran_cpu && o.ran_timers);
    assert_eq!(o.report, Some(StatReport { timer_hz: 301 / 5, cpu_hz: 500 }));
    assert_eq!(sched.stats.cpu_cycles, 0);
    assert_eq!(sched.stats.timer_cycles, 0);
    assert_eq!(sched.stats.deadline, 5_000_000_000);
    let o = sched.step_with_random(&mut chip, 2, 0);
    assert_eq!(o.report, None);
}
