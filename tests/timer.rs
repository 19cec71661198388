use irq_share::critical::Interrupts;
use irq_share::gated::GatedCell;
use irq_share::shared::{dispatch_timer_interrupt, poll_timer, timer_interrupt};
use irq_share::timer::{Poll, Timer, TimerBlock};

fn started(period: u16) -> Timer {
    let mut t = Timer::new(TimerBlock::reset());
    t.start(period);
    t
}

#[test]
fn new_configures_the_registers() {
    let t = Timer::new(TimerBlock::reset());
    let b = t.block();
    assert!(b.aux_clock && b.up_mode && b.match_irq_enabled);
    assert!(!b.match_pending);
    assert_eq!(b.compare, 0);
}

#[test]
fn start_programs_the_compare_register() {
    let t = started(6000);
    assert_eq!(t.block().compare, 6000);
}

#[test]
fn poll_without_match_would_block() {
    let mut t = started(10);
    assert_eq!(t.poll(), Poll::WouldBlock);
    assert_eq!(t.poll(), Poll::WouldBlock);
}

#[test]
fn one_ready_per_match() {
    let mut t = started(10);
    for _ in 0..5 {
        assert_eq!(t.poll(), Poll::WouldBlock);
    }
    t.on_match();
    assert_eq!(t.poll(), Poll::Ready);
    assert_eq!(t.poll(), Poll::WouldBlock);
    assert_eq!(t.poll(), Poll::WouldBlock);
}

#[test]
fn matches_before_a_poll_are_merged() {
    let mut t = started(10);
    t.on_match();
    t.on_match();
    assert_eq!(t.poll(), Poll::Ready);
    assert_eq!(t.poll(), Poll::WouldBlock);
}

#[test]
fn on_match_acknowledges_the_hardware() {
    let mut t = started(2);
    for _ in 0..3 {
        t.tick();
    }
    assert!(t.block().match_pending);
    assert!(t.block().irq_requested());
    t.on_match();
    assert!(!t.block().match_pending);
    assert!(!t.block().irq_requested());
}

#[test]
fn counter_runs_zero_to_compare_in_up_mode() {
    let mut t = started(3);
    let mut counts = Vec::new();
    for _ in 0..5 {
        t.tick();
        counts.push(t.block().count);
    }
    assert_eq!(counts, vec![1, 2, 3, 0, 1]);
    let mut stopped = started(0);
    stopped.tick();
    assert_eq!(stopped.block().count, 0);
    assert!(!stopped.block().match_pending);
}

#[test]
fn nested_critical_sections_restore_in_order() {
    let mut irq = Interrupts::new();
    assert!(!irq.is_enabled());
    irq.enable();
    let outer = irq.enter();
    assert!(!irq.is_enabled());
    let inner = irq.enter();
    irq.leave(inner);
    assert!(!irq.is_enabled());
    irq.leave(outer);
    assert!(irq.is_enabled());
}

#[test]
fn handler_does_not_run_inside_a_critical_section() {
    let mut irq = Interrupts::new();
    irq.enable();
    let mut cell = GatedCell::new();
    let cs = irq.enter();
    cell.replace(&cs, started(1));
    irq.leave(cs);
    {
        let cs = irq.enter();
        cell.get_mut(&cs).tick();
        cell.get_mut(&cs).tick();
        irq.leave(cs);
    }
    let cs = irq.enter();
    assert!(!dispatch_timer_interrupt(&mut irq, &mut cell));
    assert_eq!(poll_timer(&cs, &mut cell), Poll::WouldBlock);
    irq.leave(cs);
    assert!(dispatch_timer_interrupt(&mut irq, &mut cell));
    let cs = irq.enter();
    assert_eq!(poll_timer(&cs, &mut cell), Poll::Ready);
    assert_eq!(poll_timer(&cs, &mut cell), Poll::WouldBlock);
    irq.leave(cs);
}

#[test]
fn handler_body_signals_completion() {
    let mut irq = Interrupts::new();
    let mut cell = GatedCell::new();
    let cs = irq.enter();
    cell.replace(&cs, started(5));
    timer_interrupt(&cs, &mut cell);
    assert_eq!(poll_timer(&cs, &mut cell), Poll::Ready);
    irq.leave(cs);
}

#[test]
fn six_thousand_ticks_at_six_khz_is_one_ready_per_second() {
    let mut irq = Interrupts::new();
    let mut cell = GatedCell::new();
    let cs = irq.enter();
    cell.replace(&cs, started(6000));
    irq.leave(cs);
    irq.enable();
    let mut ready_at = Vec::new();
    for tick in 1..=60_100u32 {
        {
            let cs = irq.enter();
            cell.get_mut(&cs).tick();
            irq.leave(cs);
        }
        dispatch_timer_interrupt(&mut irq, &mut cell);
        let cs = irq.enter();
        if poll_timer(&cs, &mut cell) == Poll::Ready {
            ready_at.push(tick);
        }
        irq.leave(cs);
    }
    assert_eq!(ready_at.len(), 10);
    let mut last = 0u32;
    for t in ready_at {
        let gap = t - last;
        assert!(gap >= 5999 && gap <= 6001, "gap {}", gap);
        last = t;
    }
}
