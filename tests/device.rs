use the_protocol::{
    blink_step, Command, DeviceState, Funct, Payload, RejectReason, Response, SDateTime,
};

fn at(hour: u32, minute: u32, second: u32) -> SDateTime {
    SDateTime { year: 2025, month: 6, day: 1, hour, minute, second, nanoseconds: 0 }
}

#[test]
fn new_device_is_in_its_initial_state() {
    let d = DeviceState::new();
    assert_eq!(d.counter(), 0);
    assert_eq!(d.blink_interval_ms(), 0);
    assert!(!d.rgb_enabled());
    assert_eq!(d.reference_time(), None);
    assert!(d.schedule().is_empty());
}

#[test]
fn schedule_before_reference_time_is_illegal() {
    let mut d = DeviceState::new();
    let before = d.clone();
    let r = d.process_command(Command::Schedule(Funct::Increment, at(12, 0, 0)));
    assert_eq!(r, Response::Rejected(RejectReason::IllegalCommand));
    assert_eq!(d, before);
}

#[test]
fn schedule_after_reference_time_is_accepted() {
    let mut d = DeviceState::new();
    assert_eq!(d.process_command(Command::SetDateTime(Some(at(11, 0, 0)))), Response::Accepted(None));
    let f = Funct::EnableBlink { period_ms: 500 };
    assert_eq!(d.process_command(Command::Schedule(f, at(12, 0, 0))), Response::Accepted(None));
    assert_eq!(d.schedule(), &[(at(12, 0, 0), f)]);
    assert_eq!(d.counter(), 0);
    assert_eq!(d.blink_interval_ms(), 0);
}

#[test]
fn schedule_is_illegal_again_after_clearing_the_time() {
    let mut d = DeviceState::new();
    d.process_command(Command::SetDateTime(Some(at(11, 0, 0))));
    d.process_command(Command::SetDateTime(None));
    assert_eq!(
        d.process_command(Command::Schedule(Funct::Increment, at(12, 0, 0))),
        Response::Rejected(RejectReason::IllegalCommand)
    );
    d.process_command(Command::SetDateTime(Some(at(11, 0, 0))));
    d.process_command(Command::Reset);
    assert_eq!(
        d.process_command(Command::Schedule(Funct::Increment, at(12, 0, 0))),
        Response::Rejected(RejectReason::IllegalCommand)
    );
    assert!(d.schedule().is_empty());
}

#[test]
fn queue_is_kept_in_order_of_target_time() {
    let mut d = DeviceState::new();
    d.process_command(Command::SetDateTime(Some(at(0, 0, 0))));
    d.process_command(Command::Schedule(Funct::EnableRgb, at(12, 0, 0)));
    d.process_command(Command::Schedule(Funct::Increment, at(10, 0, 0)));
    d.process_command(Command::Schedule(Funct::DisableRgb, at(12, 0, 0)));
    d.process_command(Command::Schedule(Funct::DisableBlink, at(11, 0, 0)));
    assert_eq!(
        d.schedule(),
        &[
            (at(10, 0, 0), Funct::Increment),
            (at(11, 0, 0), Funct::DisableBlink),
            (at(12, 0, 0), Funct::EnableRgb),
            (at(12, 0, 0), Funct::DisableRgb),
        ]
    );
}

#[test]
fn counter_increments_by_one_each() {
    let mut d = DeviceState::new();
    for i in 0..5u64 {
        assert_eq!(d.process_command(Command::Counter), Response::Accepted(Some(Payload::Counter(i))));
        assert_eq!(d.process_command(Command::Immediate(Funct::Increment)), Response::Accepted(None));
    }
    assert_eq!(d.process_command(Command::Counter), Response::Accepted(Some(Payload::Counter(5))));
    assert_eq!(d.process_command(Command::Reset), Response::Accepted(None));
    assert_eq!(d.process_command(Command::Counter), Response::Accepted(Some(Payload::Counter(0))));
}

#[test]
fn disable_twice_equals_disable_once() {
    let mut d = DeviceState::new();
    d.process_command(Command::Immediate(Funct::EnableBlink { period_ms: 300 }));
    d.process_command(Command::Immediate(Funct::EnableRgb));
    let mut once = d.clone();
    assert_eq!(once.process_command(Command::Immediate(Funct::DisableBlink)), Response::Accepted(None));
    let mut twice = once.clone();
    assert_eq!(twice.process_command(Command::Immediate(Funct::DisableBlink)), Response::Accepted(None));
    assert_eq!(once, twice);
    assert_eq!(once.blink_interval_ms(), 0);
    let mut once = d.clone();
    once.process_command(Command::Immediate(Funct::DisableRgb));
    let mut twice = once.clone();
    twice.process_command(Command::Immediate(Funct::DisableRgb));
    assert_eq!(once, twice);
    assert!(!once.rgb_enabled());
}

#[test]
fn immediate_functions_set_the_state() {
    let mut d = DeviceState::new();
    d.process_command(Command::Immediate(Funct::EnableBlink { period_ms: 250 }));
    assert_eq!(d.blink_interval_ms(), 250);
    d.process_command(Command::Immediate(Funct::EnableRgb));
    assert!(d.rgb_enabled());
    d.process_command(Command::Immediate(Funct::DisableRgb));
    assert!(!d.rgb_enabled());
    d.process_command(Command::Immediate(Funct::DisableBlink));
    assert_eq!(d.blink_interval_ms(), 0);
}

#[test]
fn reset_clears_state_but_keeps_the_queue() {
    let mut d = DeviceState::new();
    d.process_command(Command::SetDateTime(Some(at(9, 0, 0))));
    d.process_command(Command::Schedule(Funct::Increment, at(10, 0, 0)));
    d.process_command(Command::Immediate(Funct::Increment));
    d.process_command(Command::Immediate(Funct::EnableBlink { period_ms: 100 }));
    d.process_command(Command::Immediate(Funct::EnableRgb));
    assert_eq!(d.process_command(Command::Reset), Response::Accepted(None));
    assert_eq!(d.counter(), 0);
    assert_eq!(d.blink_interval_ms(), 0);
    assert!(!d.rgb_enabled());
    assert_eq!(d.reference_time(), None);
    assert_eq!(d.schedule(), &[(at(10, 0, 0), Funct::Increment)]);
}

#[test]
fn scheduler_fires_due_entries_in_order_once() {
    let mut d = DeviceState::new();
    d.process_command(Command::SetDateTime(Some(at(9, 0, 0))));
    d.process_command(Command::Schedule(Funct::EnableBlink { period_ms: 500 }, at(10, 0, 0)));
    d.process_command(Command::Schedule(Funct::Increment, at(9, 30, 0)));
    d.process_command(Command::Schedule(Funct::EnableRgb, at(11, 0, 0)));
    assert!(d.run_due().is_empty());
    d.process_command(Command::SetDateTime(Some(at(10, 0, 0))));
    assert_eq!(d.run_due(), vec![Funct::Increment, Funct::EnableBlink { period_ms: 500 }]);
    assert_eq!(d.counter(), 1);
    assert_eq!(d.blink_interval_ms(), 500);
    assert!(!d.rgb_enabled());
    assert_eq!(d.schedule(), &[(at(11, 0, 0), Funct::EnableRgb)]);
    assert!(d.run_due().is_empty());
    assert_eq!(d.counter(), 1);
    d.process_command(Command::SetDateTime(None));
    assert!(d.run_due().is_empty());
    d.process_command(Command::SetDateTime(Some(at(23, 0, 0))));
    assert_eq!(d.run_due(), vec![Funct::EnableRgb]);
    assert!(d.rgb_enabled());
    assert!(d.schedule().is_empty());
}

#[test]
fn end_to_end_scenario_on_the_state_machine() {
    let mut d = DeviceState::new();
    let future = at(12, 0, 2);
    let now = at(12, 0, 0);
    assert_eq!(d.process_command(Command::Counter), Response::Accepted(Some(Payload::Counter(0))));
    assert_eq!(d.process_command(Command::Immediate(Funct::Increment)), Response::Accepted(None));
    assert_eq!(d.process_command(Command::Counter), Response::Accepted(Some(Payload::Counter(1))));
    let sched = Command::Schedule(Funct::EnableBlink { period_ms: 500 }, future);
    assert_eq!(d.process_command(sched), Response::Rejected(RejectReason::IllegalCommand));
    assert_eq!(d.process_command(Command::SetDateTime(Some(now))), Response::Accepted(None));
    assert_eq!(d.process_command(sched), Response::Accepted(None));
}

#[test]
fn blink_loop_turns() {
    assert_eq!(blink_step(0, true), (false, 200));
    assert_eq!(blink_step(0, false), (false, 200));
    assert_eq!(blink_step(300, false), (true, 300));
    assert_eq!(blink_step(300, true), (false, 300));
}
