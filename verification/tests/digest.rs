use caspar_av::osc::decode::{Message, Value};
use caspar_av::osc::digest::{Number, Rate, SlotState};
use caspar_av::osc::state::{Reading, Scalar, Telemetry, STALE_AFTER_PACKETS};

fn msg(addr: &str, args: Vec<Value>) -> Message {
    Message { address: addr.into(), args }
}

fn f32v(x: f32) -> Value {
    Value::Float(x.to_bits())
}

fn as_f64(n: Number) -> f64 {
    match n {
        Number::Int(i) => i as f64,
        Number::Count(c) => c as f64,
        Number::Float(b) => f32::from_bits(b) as f64,
        Number::Double(b) => f64::from_bits(b),
    }
}

fn rate_f64(r: Rate) -> f64 {
    match r.den {
        Some(d) => as_f64(r.num) / as_f64(d),
        None => as_f64(r.num),
    }
}

fn opt(n: Option<Number>) -> Option<f64> {
    n.map(as_f64)
}

fn frame_of(s: &SlotState) -> Option<f64> {
    match (s.time, s.fps) {
        (Some(t), Some(f)) => Some((as_f64(t) * rate_f64(f)).round()),
        _ => None,
    }
}

fn frames_of(s: &SlotState) -> Option<f64> {
    match (s.duration, s.fps) {
        (Some(d), Some(f)) => Some((as_f64(d) * rate_f64(f)).round()),
        _ => None,
    }
}

#[test]
fn builds_a_nested_tree() {
    let mut t = Telemetry::new();
    t.apply(&msg("/channel/1/format", vec![Value::String("720p5000".into())]));
    let raw = t.raw();
    let e = &raw.entries()[0];
    assert_eq!(e.path, vec!["channel", "1", "format"]);
    assert_eq!(e.value, Reading::Single(Scalar::Text("720p5000".into())));
}

#[test]
fn a_leaf_can_become_a_branch() {
    let mut t = Telemetry::new();
    t.apply(&msg("/channel/1/stage/layer/1/foreground/file", vec![Value::Int(0)]));
    t.apply(&msg("/channel/1/stage/layer/1/foreground/file/path", vec![Value::String("x.mp4".into())]));
    let raw = t.raw();
    assert_eq!(raw.entries().len(), 1);
    assert_eq!(raw.entries()[0].path.last().unwrap(), "path");
    assert_eq!(raw.entries()[0].value, Reading::Single(Scalar::Text("x.mp4".into())));
}

#[test]
fn digest_pulls_out_channels_and_layers() {
    let mut t = Telemetry::new();
    t.apply(&msg("/channel/1/format", vec![Value::String("1080p5000".into())]));
    t.apply(&msg("/channel/1/framerate", vec![Value::Double(50.0f64.to_bits())]));
    t.apply(&msg("/channel/1/stage/layer/10/foreground/producer", vec![Value::String("ffmpeg".into())]));
    t.apply(&msg("/channel/1/stage/layer/10/foreground/paused", vec![Value::Bool(false)]));
    t.apply(&msg("/channel/1/stage/layer/10/foreground/file/time", vec![f32v(1.5), f32v(30.0)]));
    t.apply(&msg("/channel/1/stage/layer/10/foreground/file/path", vec![Value::String("AMB.mp4".into())]));

    let d = t.digest();
    assert_eq!(d.len(), 1);
    assert_eq!(d[0].index, 1);
    assert_eq!(d[0].format.as_deref(), Some("1080p5000"));
    assert_eq!(d[0].layers.len(), 1);
    let fg = d[0].layers[0].foreground.as_ref().unwrap();
    assert_eq!(fg.producer.as_deref(), Some("ffmpeg"));
    assert_eq!(fg.path.as_deref(), Some("AMB.mp4"));
    assert_eq!(opt(fg.time), Some(1.5));
    assert_eq!(opt(fg.duration), Some(30.0));
    assert!(!fg.paused);
}

#[test]
fn a_playing_clip_matches_what_a_live_server_sends() {
    let mut t = Telemetry::new();
    let fg = "/channel/1/stage/layer/10/foreground";
    t.apply(&msg(&format!("{fg}/producer"), vec![Value::String("ffmpeg".into())]));
    t.apply(&msg(&format!("{fg}/paused"), vec![Value::Bool(false)]));
    t.apply(&msg(&format!("{fg}/loop"), vec![Value::Bool(true)]));
    t.apply(&msg(&format!("{fg}/file/name"), vec![Value::String("TESTCLIP".into())]));
    t.apply(&msg(&format!("{fg}/file/path"), vec![Value::String("/opt/caspar/media/TESTCLIP.mp4".into())]));
    t.apply(&msg(&format!("{fg}/file/time"), vec![f32v(1.28), f32v(8.0)]));
    t.apply(&msg(&format!("{fg}/file/clip"), vec![f32v(0.0), f32v(8.0)]));
    t.apply(&msg(&format!("{fg}/file/streams/0/fps"), vec![Value::Int(25), Value::Int(1)]));

    let s = t.digest()[0].layers[0].foreground.clone().unwrap();
    assert_eq!(s.producer.as_deref(), Some("ffmpeg"));
    assert_eq!(s.name.as_deref(), Some("TESTCLIP"));
    assert!((opt(s.time).unwrap() - 1.28).abs() < 1e-6);
    assert_eq!(opt(s.duration), Some(8.0));
    assert_eq!(s.fps.map(rate_f64), Some(25.0), "fps lives under file/streams/0/fps as a rational");
    assert_eq!(frame_of(&s), Some(32.0), "1.28s × 25fps");
    assert_eq!(frames_of(&s), Some(200.0));
    assert_eq!(opt(s.clip_in), Some(0.0));
    assert_eq!(opt(s.clip_duration), Some(8.0));
    assert!(s.loops);
    assert!(!s.paused);
}

#[test]
fn keys_that_stop_being_reported_are_dropped() {
    let fg = "/channel/1/stage/layer/10/foreground";
    let mut t = Telemetry::new();
    t.apply_all(&[
        msg(&format!("{fg}/producer"), vec![Value::String("ffmpeg".into())]),
        msg(&format!("{fg}/file/name"), vec![Value::String("TESTCLIP".into())]),
        msg(&format!("{fg}/file/time"), vec![f32v(4.4), f32v(8.0)]),
    ]);
    assert_eq!(t.digest()[0].layers[0].foreground.as_ref().unwrap().name.as_deref(), Some("TESTCLIP"));
    for _ in 0..STALE_AFTER_PACKETS + 1 {
        t.apply_all(&[
            msg(&format!("{fg}/producer"), vec![Value::String("color".into())]),
            msg(&format!("{fg}/color"), vec![Value::String("#FF808080".into())]),
        ]);
    }
    let s = t.digest()[0].layers[0].foreground.clone().unwrap();
    assert_eq!(s.producer.as_deref(), Some("color"));
    assert_eq!(s.name, None, "the previous clip's name must not linger");
    assert_eq!(s.time, None, "nor its position");
}

#[test]
fn a_key_is_kept_while_it_keeps_arriving() {
    let mut t = Telemetry::new();
    for _ in 0..STALE_AFTER_PACKETS * 3 {
        t.apply_all(&[msg("/channel/1/format", vec![Value::String("720p5000".into())])]);
    }
    assert_eq!(t.digest()[0].format.as_deref(), Some("720p5000"));
}

#[test]
fn a_state_split_across_packets_is_not_mistaken_for_removal() {
    let mut t = Telemetry::new();
    for i in 0..STALE_AFTER_PACKETS * 2 {
        if i % 2 == 0 {
            t.apply_all(&[msg("/channel/1/format", vec![Value::String("720p5000".into())])]);
        } else {
            t.apply_all(&[msg("/channel/1/framerate", vec![Value::Int(50), Value::Int(1)])]);
        }
    }
    let d = t.digest();
    assert_eq!(d[0].format.as_deref(), Some("720p5000"));
    assert_eq!(d[0].framerate.map(rate_f64), Some(50.0));
}

#[test]
fn framerate_is_a_rational_pair_not_a_float() {
    let mut t = Telemetry::new();
    t.apply(&msg("/channel/1/framerate", vec![Value::Int(25), Value::Int(1)]));
    assert_eq!(t.digest()[0].framerate.map(rate_f64), Some(25.0));

    let mut t = Telemetry::new();
    t.apply(&msg("/channel/2/framerate", vec![Value::Int(30000), Value::Int(1001)]));
    assert!((t.digest()[0].framerate.map(rate_f64).unwrap() - 29.97).abs() < 0.01);
}

#[test]
fn a_scalar_framerate_still_works() {
    let mut t = Telemetry::new();
    t.apply(&msg("/channel/1/framerate", vec![Value::Double(50.0f64.to_bits())]));
    assert_eq!(t.digest()[0].framerate.map(rate_f64), Some(50.0));
}

#[test]
fn a_zero_denominator_leaves_the_numerator() {
    let mut t = Telemetry::new();
    t.apply(&msg("/channel/1/framerate", vec![Value::Int(25), Value::Int(0)]));
    assert_eq!(t.digest()[0].framerate, Some(Rate { num: Number::Int(25), den: None }));
}

#[test]
fn a_colour_producer_reports_no_file_fields() {
    let mut t = Telemetry::new();
    t.apply(&msg("/channel/1/stage/layer/10/foreground/producer", vec![Value::String("color".into())]));
    t.apply(&msg("/channel/1/stage/layer/10/foreground/color", vec![Value::String("#3050FFFF".into())]));
    t.apply(&msg("/channel/1/stage/layer/10/foreground/paused", vec![Value::Bool(false)]));

    let fg = t.digest()[0].layers[0].foreground.clone().unwrap();
    assert_eq!(fg.producer.as_deref(), Some("color"));
    assert_eq!(fg.time, None);
    assert_eq!(fg.duration, None);
    assert_eq!(frame_of(&fg), None);
}

#[test]
fn an_empty_producer_is_reported_as_no_slot() {
    let mut t = Telemetry::new();
    t.apply(&msg("/channel/1/stage/layer/1/foreground/producer", vec![Value::String("empty".into())]));
    let d = t.digest();
    assert!(d[0].layers[0].foreground.is_none());
}

#[test]
fn channels_and_layers_come_out_in_numeric_order() {
    let mut t = Telemetry::new();
    for ch in [10u32, 2, 1] {
        t.apply(&msg(&format!("/channel/{ch}/format"), vec![Value::String("PAL".into())]));
        for layer in [20u32, 3] {
            t.apply(&msg(
                &format!("/channel/{ch}/stage/layer/{layer}/foreground/producer"),
                vec![Value::String("ffmpeg".into())],
            ));
        }
    }
    let d = t.digest();
    assert_eq!(d.iter().map(|c| c.index).collect::<Vec<_>>(), vec![1, 2, 10]);
    assert_eq!(d[0].layers.iter().map(|l| l.index).collect::<Vec<_>>(), vec![3, 20]);
}

#[test]
fn names_that_are_not_numbers_are_not_channels() {
    let mut t = Telemetry::new();
    t.apply(&msg("/channel/x/format", vec![Value::String("PAL".into())]));
    t.apply(&msg("/channel/+7/format", vec![Value::String("NTSC".into())]));
    t.apply(&msg("/channel/99999999999/format", vec![Value::String("big".into())]));
    let d = t.digest();
    assert_eq!(d.len(), 1);
    assert_eq!(d[0].index, 7);
}

#[test]
fn the_background_slot_is_read_too() {
    let mut t = Telemetry::new();
    t.apply(&msg("/channel/1/stage/layer/5/background/producer", vec![Value::String("ffmpeg".into())]));
    t.apply(&msg("/channel/1/stage/layer/5/background/file/fps", vec![Value::Int(30)]));
    let l = &t.digest()[0].layers[0];
    assert!(l.foreground.is_none());
    assert_eq!(l.background.as_ref().unwrap().fps, Some(Rate { num: Number::Int(30), den: None }));
}

#[test]
fn multiple_args_become_an_array() {
    let mut t = Telemetry::new();
    t.apply(&msg(
        "/channel/1/stage/layer/10/foreground/file/time",
        vec![f32v(1.5), f32v(30.0)],
    ));
    let raw = t.raw();
    match &raw.entries()[0].value {
        Reading::List(v) => assert_eq!(v.len(), 2),
        other => panic!("{other:?}"),
    }
}
