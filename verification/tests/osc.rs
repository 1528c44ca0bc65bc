use caspar_av::osc::decode::{decode_packet, Error, Message, Value};
use caspar_av::osc::state::{Reading, Scalar, Telemetry, STALE_AFTER_PACKETS};

fn ostr(s: &str) -> Vec<u8> {
    let mut v = s.as_bytes().to_vec();
    v.push(0);
    while v.len() % 4 != 0 {
        v.push(0);
    }
    v
}

fn message(addr: &str, tags: &str, payload: &[u8]) -> Vec<u8> {
    let mut v = ostr(addr);
    v.extend(ostr(&format!(",{tags}")));
    v.extend_from_slice(payload);
    v
}

fn msg(addr: &str, args: Vec<Value>) -> Message {
    Message { address: addr.into(), args }
}

#[test]
fn decodes_an_int_message() {
    let pkt = message("/channel/1/stage/layer/10/file/frame", "i", &1234i32.to_be_bytes());
    let msgs = decode_packet(&pkt).unwrap();
    assert_eq!(msgs.len(), 1);
    assert_eq!(msgs[0].address, "/channel/1/stage/layer/10/file/frame");
    assert_eq!(msgs[0].args, vec![Value::Int(1234)]);
}

#[test]
fn decodes_mixed_argument_types() {
    let mut payload = Vec::new();
    payload.extend_from_slice(&7i32.to_be_bytes());
    payload.extend_from_slice(&0.5f32.to_bits().to_be_bytes());
    payload.extend(ostr("AMB"));
    let pkt = message("/channel/1/x", "ifsTF", &payload);
    let msgs = decode_packet(&pkt).unwrap();
    assert_eq!(
        msgs[0].args,
        vec![
            Value::Int(7),
            Value::Float(0.5f32.to_bits()),
            Value::String("AMB".into()),
            Value::Bool(true),
            Value::Bool(false),
        ]
    );
}

#[test]
fn flattens_a_bundle() {
    let a = message("/a", "i", &1i32.to_be_bytes());
    let b = message("/b", "i", &2i32.to_be_bytes());
    let mut pkt = b"#bundle\0".to_vec();
    pkt.extend_from_slice(&[0, 0, 0, 0, 0, 0, 0, 1]);
    pkt.extend_from_slice(&(a.len() as i32).to_be_bytes());
    pkt.extend_from_slice(&a);
    pkt.extend_from_slice(&(b.len() as i32).to_be_bytes());
    pkt.extend_from_slice(&b);

    let msgs = decode_packet(&pkt).unwrap();
    assert_eq!(msgs.len(), 2);
    assert_eq!(msgs[0].address, "/a");
    assert_eq!(msgs[1].address, "/b");
    assert_eq!(msgs[1].args, vec![Value::Int(2)]);
}

#[test]
fn a_message_with_no_type_tags_has_no_args() {
    let pkt = ostr("/ping");
    let msgs = decode_packet(&pkt).unwrap();
    assert_eq!(msgs[0].address, "/ping");
    assert!(msgs[0].args.is_empty());
}

#[test]
fn truncated_packets_error_rather_than_panic() {
    let pkt = message("/a", "i", &[0, 0]);
    assert_eq!(decode_packet(&pkt), Err(Error::Truncated));
}

#[test]
fn an_unterminated_address_errors() {
    assert_eq!(decode_packet(b"/abc"), Err(Error::Unterminated));
}

#[test]
fn blobs_carry_their_padding() {
    let mut payload = (3i32).to_be_bytes().to_vec();
    payload.extend_from_slice(&[1, 2, 3, 0]);
    payload.extend_from_slice(&9i32.to_be_bytes());
    let pkt = message("/a", "bi", &payload);
    let msgs = decode_packet(&pkt).unwrap();
    assert_eq!(msgs[0].args, vec![Value::Blob(vec![1, 2, 3]), Value::Int(9)]);
}

#[test]
fn unknown_tags_and_bad_addresses_are_reported() {
    assert_eq!(decode_packet(&message("/a", "x", &[])), Err(Error::UnknownTag('x')));
    assert_eq!(decode_packet(&ostr("abc")), Err(Error::BadAddress));
    assert_eq!(decode_packet(b"#bundle\0"), Err(Error::Truncated));
}

#[test]
fn longs_and_doubles_are_big_endian() {
    let mut payload = (-5i64).to_be_bytes().to_vec();
    payload.extend_from_slice(&2.5f64.to_bits().to_be_bytes());
    let msgs = decode_packet(&message("/n", "hd", &payload)).unwrap();
    assert_eq!(msgs[0].args, vec![Value::Long(-5), Value::Double(2.5f64.to_bits())]);
}

#[test]
fn a_message_is_held_by_its_path_without_leading_slashes() {
    let mut t = Telemetry::new();
    t.apply(&msg("//channel/1/format", vec![Value::String("720p5000".into())]));
    assert_eq!(t.reading("channel/1/format"), Some(Reading::Single(Scalar::Text("720p5000".into()))));
    assert_eq!(t.reading("/channel/1/format"), None);
}

#[test]
fn several_arguments_are_held_as_a_list() {
    let mut t = Telemetry::new();
    t.apply(&msg(
        "/channel/1/stage/layer/10/foreground/file/time",
        vec![Value::Float(1.5f32.to_bits()), Value::Float(30.0f32.to_bits())],
    ));
    assert_eq!(
        t.reading("channel/1/stage/layer/10/foreground/file/time"),
        Some(Reading::List(vec![Scalar::Float(1.5f32.to_bits()), Scalar::Float(30.0f32.to_bits())]))
    );
}

#[test]
fn non_finite_floats_and_impulses_are_null() {
    let mut t = Telemetry::new();
    t.apply(&msg("/x", vec![Value::Float(f32::NAN.to_bits())]));
    t.apply(&msg("/y", vec![Value::Impulse]));
    t.apply(&msg("/z", vec![]));
    t.apply(&msg("/b", vec![Value::Blob(vec![1, 2, 3])]));
    assert_eq!(t.reading("x"), Some(Reading::Single(Scalar::Null)));
    assert_eq!(t.reading("y"), Some(Reading::Single(Scalar::Null)));
    assert_eq!(t.reading("z"), Some(Reading::Single(Scalar::Null)));
    assert_eq!(t.reading("b"), Some(Reading::Single(Scalar::Count(3))));
}

#[test]
fn unreported_keys_leave_the_state() {
    let fg = "/channel/1/stage/layer/10/foreground";
    let mut t = Telemetry::new();
    t.apply_all(&[
        msg(&format!("{fg}/producer"), vec![Value::String("ffmpeg".into())]),
        msg(&format!("{fg}/file/name"), vec![Value::String("TESTCLIP".into())]),
    ]);
    assert!(t.reading("channel/1/stage/layer/10/foreground/file/name").is_some());
    for _ in 0..STALE_AFTER_PACKETS + 1 {
        t.apply_all(&[msg(&format!("{fg}/producer"), vec![Value::String("color".into())])]);
    }
    assert_eq!(t.reading("channel/1/stage/layer/10/foreground/file/name"), None);
    assert_eq!(
        t.reading("channel/1/stage/layer/10/foreground/producer"),
        Some(Reading::Single(Scalar::Text("color".into())))
    );
}

#[test]
fn a_reported_key_stays_in_the_state() {
    let mut t = Telemetry::new();
    for _ in 0..STALE_AFTER_PACKETS * 3 {
        t.apply_all(&[msg("/channel/1/format", vec![Value::String("720p5000".into())])]);
    }
    assert!(t.reading("channel/1/format").is_some());
    assert_eq!(t.generation(), STALE_AFTER_PACKETS * 3);
}

#[test]
fn alternating_keys_both_stay_in_the_state() {
    let mut t = Telemetry::new();
    for i in 0..STALE_AFTER_PACKETS * 2 {
        if i % 2 == 0 {
            t.apply_all(&[msg("/channel/1/format", vec![Value::String("720p5000".into())])]);
        } else {
            t.apply_all(&[msg("/channel/1/framerate", vec![Value::Int(50), Value::Int(1)])]);
        }
    }
    assert!(t.reading("channel/1/format").is_some());
    assert_eq!(
        t.reading("channel/1/framerate"),
        Some(Reading::List(vec![Scalar::Int(50), Scalar::Int(1)]))
    );
}

#[test]
fn a_key_is_dropped_exactly_after_the_window() {
    let mut t = Telemetry::new();
    t.apply_all(&[msg("/k", vec![Value::Int(1)])]);
    for _ in 0..STALE_AFTER_PACKETS {
        t.apply_all(&[]);
    }
    assert!(t.reading("k").is_some(), "seen 50 packets ago: still held");
    t.apply_all(&[]);
    assert_eq!(t.reading("k"), None, "seen 51 packets ago: dropped");
}
