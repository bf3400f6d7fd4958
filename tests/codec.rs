use the_protocol::wire::{write_command, write_response};
use the_protocol::{
    frame, Codec, Command, DeserializeError, Funct, Payload, RejectReason, Response, SDateTime,
    SerializeError, COMMAND_MAX_SERIALIZED_LEN, RESPONSE_MAX_SERIALIZED_LEN,
};

fn now() -> SDateTime {
    SDateTime { year: 2025, month: 3, day: 9, hour: 14, minute: 7, second: 42, nanoseconds: 123_456_789 }
}

fn all_functs() -> Vec<Funct> {
    vec![
        Funct::Increment,
        Funct::EnableBlink { period_ms: 0 },
        Funct::EnableBlink { period_ms: 500 },
        Funct::EnableBlink { period_ms: u64::MAX },
        Funct::DisableBlink,
        Funct::EnableRgb,
        Funct::DisableRgb,
    ]
}

fn some_commands() -> Vec<Command> {
    let mut cmds = vec![
        Command::Reset,
        Command::Counter,
        Command::SetDateTime(None),
        Command::SetDateTime(Some(now())),
        Command::SetDateTime(Some(SDateTime { year: -5, month: 0, day: 0, hour: 0, minute: 0, second: 0, nanoseconds: 0 })),
    ];
    for f in all_functs() {
        cmds.push(Command::Immediate(f));
        cmds.push(Command::Schedule(f, now()));
    }
    cmds
}

fn some_responses() -> Vec<Response> {
    let mut rs = vec![
        Response::Accepted(None),
        Response::Accepted(Some(Payload::Counter(0))),
        Response::Accepted(Some(Payload::Counter(u64::MAX))),
        Response::Rejected(RejectReason::CorruptedFrame),
        Response::Rejected(RejectReason::IllegalCommand),
        Response::Rejected(RejectReason::NotImplemented),
        Response::Rejected(RejectReason::InternalError),
    ];
    for c in some_commands() {
        rs.push(Response::OkRecovered(None, c));
        rs.push(Response::OkRecovered(Some(Payload::Counter(256)), c));
    }
    rs
}

#[test]
fn max_serialized_lengths() {
    assert_eq!(Command::MAX_SERIALIZED_LEN, 44);
    assert_eq!(COMMAND_MAX_SERIALIZED_LEN, 44);
    assert_eq!(Response::MAX_SERIALIZED_LEN, 55);
    assert_eq!(RESPONSE_MAX_SERIALIZED_LEN, 55);
}

#[test]
fn commands_round_trip() {
    for c in some_commands() {
        let mut buf = [0u8; Command::MAX_SERIALIZED_LEN];
        let n = c.serialize(&mut buf).unwrap();
        assert!(n <= Command::MAX_SERIALIZED_LEN);
        assert_eq!(Command::deserialize_in_place(&mut buf), Ok(c));
    }
}

#[test]
fn responses_round_trip() {
    for r in some_responses() {
        let mut buf = [0u8; Response::MAX_SERIALIZED_LEN];
        let n = r.serialize(&mut buf).unwrap();
        assert!(n <= Response::MAX_SERIALIZED_LEN);
        assert_eq!(Response::deserialize_in_place(&mut buf[..n]), Ok(r));
    }
}

#[test]
fn round_trip_ignores_bytes_after_the_frame() {
    let c = Command::Schedule(Funct::EnableBlink { period_ms: 500 }, now());
    let mut bytes = frame(&c);
    bytes.extend_from_slice(&[7, 0, 0, 3, 9]);
    assert_eq!(Command::deserialize_in_place(&mut bytes), Ok(c));
}

#[test]
fn frames_hold_no_zero_but_the_last() {
    for c in some_commands() {
        let f = frame(&c);
        assert_eq!(*f.last().unwrap(), 0);
        assert!(f[..f.len() - 1].iter().all(|&b| b != 0), "{f:?}");
    }
    for r in some_responses() {
        let f = frame(&r);
        assert_eq!(*f.last().unwrap(), 0);
        assert!(f[..f.len() - 1].iter().all(|&b| b != 0), "{f:?}");
    }
}

#[test]
fn frame_bytes_of_simple_commands() {
    assert_eq!(frame(&Command::Counter), vec![0x02, 0x01, 0x00]);
    assert_eq!(frame(&Command::Reset), vec![0x01, 0x01, 0x00]);
    assert_eq!(frame(&Command::Immediate(Funct::Increment)), vec![0x02, 0x03, 0x01, 0x00]);
    assert_eq!(
        frame(&Response::Accepted(Some(Payload::Counter(1)))),
        vec![0x01, 0x02, 0x01, 0x02, 0x01, 0x01, 0x01, 0x01, 0x01, 0x01, 0x01, 0x01, 0x00]
    );
    assert_eq!(frame(&Response::Rejected(RejectReason::IllegalCommand)), vec![0x03, 0x01, 0x01, 0x00]);
}

#[test]
fn serialize_writes_at_start_and_leaves_the_rest() {
    let mut buf = [0xAAu8; 10];
    let n = Command::Counter.serialize(&mut buf).unwrap();
    assert_eq!(n, 3);
    assert_eq!(&buf[..3], &[0x02, 0x01, 0x00]);
    assert!(buf[3..].iter().all(|&b| b == 0xAA));
}

#[test]
fn serialize_fails_on_a_short_buffer() {
    // The layout of `Counter` is one byte, whose worst-case frame is three.
    let mut buf = [0x55u8; 2];
    assert_eq!(Command::Counter.serialize(&mut buf), Err(SerializeError::BufferTooSmall));
    assert_eq!(buf, [0x55, 0x55]);
    let mut exact = [0u8; 3];
    assert_eq!(Command::Counter.serialize(&mut exact), Ok(3));
    let c = Command::Schedule(Funct::EnableBlink { period_ms: 1 }, now());
    let mut short = [0u8; 39];
    assert_eq!(c.serialize(&mut short), Err(SerializeError::BufferTooSmall));
    let mut enough = [0u8; 40];
    assert!(c.serialize(&mut enough).is_ok());
}

#[test]
fn deserialize_rejects_truncated_stuffing() {
    let mut bytes = [0x05u8, 0x00];
    assert_eq!(Command::deserialize_in_place(&mut bytes), Err(DeserializeError::InvalidFrame));
    let mut bytes = [0x09u8, 0x01, 0x02];
    assert_eq!(Response::deserialize_in_place(&mut bytes), Err(DeserializeError::InvalidFrame));
}

#[test]
fn deserialize_rejects_bad_layouts() {
    // unknown variant index
    let mut bytes = [0x02u8, 0x09, 0x00];
    assert_eq!(Command::deserialize_in_place(&mut bytes), Err(DeserializeError::InvalidLayout));
    // a byte too many after `Counter`
    let mut bytes = [0x03u8, 0x01, 0x05, 0x00];
    assert_eq!(Command::deserialize_in_place(&mut bytes), Err(DeserializeError::InvalidLayout));
    // an option tag other than 0 or 1
    let mut bytes = [0x03u8, 0x02, 0x02, 0x00];
    assert_eq!(Command::deserialize_in_place(&mut bytes), Err(DeserializeError::InvalidLayout));
    // a date-time cut short
    let mut bytes = [0x04u8, 0x02, 0x01, 0x07, 0x00];
    assert_eq!(Command::deserialize_in_place(&mut bytes), Err(DeserializeError::InvalidLayout));
    // an empty frame
    let mut bytes = [0x01u8, 0x00];
    assert_eq!(Response::deserialize_in_place(&mut bytes), Err(DeserializeError::InvalidLayout));
    // a reject reason out of range
    let mut bytes = [0x03u8, 0x01, 0x04, 0x00];
    assert_eq!(Response::deserialize_in_place(&mut bytes), Err(DeserializeError::InvalidLayout));
}

#[test]
fn layout_matches_ssmarshal_for_the_same_shapes() {
    let t = now();
    let date = (t.year, t.month, t.day, t.hour, t.minute, t.second, t.nanoseconds);
    let cases: Vec<(Command, Vec<u8>)> = vec![
        (Command::Counter, marshal(&(1u8,))),
        (Command::SetDateTime(None), marshal(&(2u8, 0u8))),
        (Command::SetDateTime(Some(t)), marshal(&(2u8, Some(date)))),
        (Command::Immediate(Funct::EnableBlink { period_ms: 500 }), marshal(&(3u8, 1u8, 500u64))),
        (Command::Schedule(Funct::DisableRgb, t), marshal(&(4u8, 4u8, date))),
        (Command::Schedule(Funct::EnableBlink { period_ms: 77 }, t), marshal(&(4u8, 1u8, 77u64, date))),
    ];
    for (c, expected) in cases {
        let mut layout = Vec::new();
        write_command(&c, &mut layout);
        assert_eq!(layout, expected, "{c:?}");
    }
    let mut layout = Vec::new();
    write_response(&Response::OkRecovered(Some(Payload::Counter(42)), Command::Reset), &mut layout);
    assert_eq!(layout, marshal(&(2u8, Some((0u8, 42u64)), 0u8)));
}

fn marshal<T: serde::Serialize>(v: &T) -> Vec<u8> {
    let mut buf = [0u8; 64];
    let n = ssmarshal::serialize(&mut buf, v).unwrap();
    buf[..n].to_vec()
}
