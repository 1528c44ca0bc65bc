use caspar_av::bridge::{api_error, Error};
use caspar_av::control::{
    mix_of, not_found, transport_action, MixerRequest, TemplateRequest, TransportRequest,
};
use caspar_av::show::model::{identity_corners, Action, Real, Rect, Screen, Show};

fn num(x: f64) -> Real {
    Real::new(x.to_bits(), &format!("{x}"))
}

fn show() -> Show {
    let mut s = Show::default();
    s.screens.push(Screen {
        id: "left".into(),
        name: "Left".into(),
        channel: 1,
        layer: 10,
        rect: Rect::default(),
        corners: identity_corners(),
        enabled: true,
        opacity: num(1.0),
    });
    s
}

fn mixer(property: &str, values: &[f64]) -> MixerRequest {
    MixerRequest {
        property: property.into(),
        values: values.iter().map(|v| num(*v)).collect(),
        text: None,
        frames: 0,
        tween: None,
    }
}

#[test]
fn mixer_properties_become_their_commands() {
    let s = show();
    let run = |r: MixerRequest| s.mixer_command("left", &r).unwrap().to_string();
    assert_eq!(run(mixer("opacity", &[0.5])), "MIXER 1-10 OPACITY 0.5");
    assert_eq!(run(mixer("Fill", &[0.0, 0.0, 0.5, 0.5])), "MIXER 1-10 FILL 0 0 0.5 0.5");
    assert_eq!(run(mixer("anchor", &[0.5, 0.5, 9.0])), "MIXER 1-10 ANCHOR 0.5 0.5");
    assert_eq!(
        run(mixer("perspective", &[0.0, 0.0, 1.0, 0.05, 1.0, 1.0, 0.0, 0.95])),
        "MIXER 1-10 PERSPECTIVE 0 0 1 0.05 1 1 0 0.95"
    );
    assert_eq!(run(mixer("keyer", &[1.0])), "MIXER 1-10 KEYER 1");
    assert_eq!(run(mixer("keyer", &[])), "MIXER 1-10 KEYER 0");
    assert_eq!(run(mixer("invert", &[-0.0])), "MIXER 1-10 INVERT 0");
    assert_eq!(run(mixer("clear", &[])), "MIXER 1-10 CLEAR");
    let mut eased = mixer("volume", &[0.25]);
    eased.frames = 25;
    eased.tween = Some("easeoutquad".into());
    assert_eq!(run(eased), "MIXER 1-10 VOLUME 0.25 25 easeoutquad");
    let mut blend = mixer("blend", &[]);
    blend.text = Some("add".into());
    assert_eq!(run(blend), "MIXER 1-10 BLEND add");
}

#[test]
fn mixer_refusals_say_why() {
    let s = show();
    let err = |id: &str, r: MixerRequest| s.mixer_command(id, &r).unwrap_err();
    let e = err("ghost", mixer("opacity", &[1.0]));
    assert_eq!((e.status, e.message.as_str()), (404, "no such screen"));
    let e = err("left", mixer("Fill", &[0.0, 1.0]));
    assert_eq!((e.status, e.message.as_str()), (400, "Fill needs 4 values, got 2"));
    let e = err("left", mixer("blend", &[]));
    assert_eq!((e.status, e.message.as_str()), (400, "blend needs a mode in `text`"));
    let e = err("left", mixer("Warp", &[]));
    assert_eq!((e.status, e.message.as_str()), (400, "unknown mixer property 'warp'"));
}

#[test]
fn template_actions_become_cg_commands() {
    let s = show();
    let req = |action: &str, data: Option<&str>, method: Option<&str>| TemplateRequest {
        template: "lower-third".into(),
        cg_layer: 1,
        data: data.map(|d| d.to_string()),
        action: action.into(),
        method: method.map(|m| m.to_string()),
    };
    let run = |r: TemplateRequest| s.template_command("left", &r).map(|c| c.to_string());
    assert_eq!(run(req("add", None, None)).unwrap(), "CG 1-10 ADD 1 lower-third 1");
    assert_eq!(run(req("update", None, None)).unwrap(), "CG 1-10 UPDATE 1 {}");
    assert_eq!(run(req("stop", None, None)).unwrap(), "CG 1-10 STOP 1");
    assert_eq!(run(req("next", None, None)).unwrap(), "CG 1-10 NEXT 1");
    assert_eq!(run(req("invoke", None, Some("go"))).unwrap(), "CG 1-10 INVOKE 1 go");
    let e = run(req("ADD", None, None)).unwrap_err();
    assert_eq!((e.status, e.message.as_str()), (400, "unknown template action 'ADD'"));
    let e = s.template_command("ghost", &req("add", None, None)).unwrap_err();
    assert_eq!(e.status, 404);
}

#[test]
fn transport_requests_become_actions() {
    match transport_action("left", TransportRequest::Play { clip: "AMB".into(), looping: true, frames: 25 }) {
        Action::Play { screen, clip, looping, transition } => {
            assert_eq!((screen.as_str(), clip.as_str(), looping), ("left", "AMB", true));
            let t = transition.unwrap();
            assert_eq!((t.kind.as_str(), t.frames), ("mix", 25));
        }
        other => panic!("{other:?}"),
    }
    assert!(mix_of(0).is_none());
    let s = show();
    let cmds = s
        .compile_action(&transport_action("left", TransportRequest::Load { clip: "n".into(), looping: false, frames: 0 }))
        .unwrap();
    assert_eq!(cmds[0].to_string(), "LOADBG 1-10 n");
    let cmds = s.compile_action(&transport_action("left", TransportRequest::Clear)).unwrap();
    assert_eq!(cmds[0].to_string(), "CLEAR 1-10");
}

#[test]
fn failures_are_answered_with_their_status() {
    assert_eq!(not_found("cue").message, "no such cue");
    assert_eq!(api_error(&Error::Offline).status, 503);
    assert_eq!(api_error(&Error::Offline).message, "not connected to a CasparCG server");
}
