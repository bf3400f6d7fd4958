use the_protocol::{Command, Funct, Payload, RejectReason, Response, SDateTime};

fn at(year: i32, month: u32, day: u32, hour: u32, minute: u32, second: u32, nanoseconds: u32) -> SDateTime {
    SDateTime { year, month, day, hour, minute, second, nanoseconds }
}

#[test]
fn is_ok_accepts_positive_responses() {
    assert!(Response::Accepted(None).is_ok());
    assert!(Response::Accepted(Some(Payload::Counter(3))).is_ok());
    assert!(Response::OkRecovered(None, Command::Reset).is_ok());
    assert!(!Response::Rejected(RejectReason::IllegalCommand).is_ok());
    assert!(!Response::Rejected(RejectReason::CorruptedFrame).is_ok());
}

#[test]
fn payload_of_each_response_kind() {
    assert_eq!(Response::Accepted(Some(Payload::Counter(7))).payload(), Some(&Payload::Counter(7)));
    assert_eq!(Response::Accepted(None).payload(), None);
    assert_eq!(
        Response::OkRecovered(Some(Payload::Counter(9)), Command::Counter).payload(),
        Some(&Payload::Counter(9))
    );
    assert_eq!(Response::OkRecovered(None, Command::Counter).payload(), None);
    assert_eq!(Response::Rejected(RejectReason::NotImplemented).payload(), None);
}

#[test]
fn date_times_order_field_by_field() {
    let base = at(2024, 5, 17, 10, 30, 15, 500);
    assert!(base < at(2025, 1, 1, 0, 0, 0, 0));
    assert!(base > at(2023, 12, 31, 23, 59, 59, 999));
    assert!(base < at(2024, 6, 1, 0, 0, 0, 0));
    assert!(base < at(2024, 5, 18, 0, 0, 0, 0));
    assert!(base < at(2024, 5, 17, 11, 0, 0, 0));
    assert!(base < at(2024, 5, 17, 10, 31, 0, 0));
    assert!(base < at(2024, 5, 17, 10, 30, 16, 0));
    assert!(base < at(2024, 5, 17, 10, 30, 15, 501));
    assert!(base > at(2024, 5, 17, 10, 30, 15, 499));
    assert_eq!(base.partial_cmp(&base), Some(std::cmp::Ordering::Equal));
    assert!(at(-1, 1, 1, 0, 0, 0, 0) < at(0, 1, 1, 0, 0, 0, 0));
    assert!(at(2024, 2, 1, 0, 0, 0, 0) <= at(2024, 2, 1, 0, 0, 0, 0));
}

#[test]
fn funct_and_command_equality() {
    assert_eq!(Funct::EnableBlink { period_ms: 5 }, Funct::EnableBlink { period_ms: 5 });
    assert_ne!(Funct::EnableBlink { period_ms: 5 }, Funct::EnableBlink { period_ms: 6 });
    assert_ne!(Command::Immediate(Funct::EnableRgb), Command::Immediate(Funct::DisableRgb));
}
