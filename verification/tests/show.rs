use caspar_av::amcp::command::Command;
use caspar_av::bridge::mapping_request;
use caspar_av::show::model::{
    identity_corners, Action, Canvas, Cue, Pad, Real, Rect, Screen, Show, TransitionSpec,
    UnknownScreen,
};

fn wire(cmds: &[Command]) -> Vec<String> {
    cmds.iter().map(|c| c.to_string()).collect()
}

fn num(x: f64) -> Real {
    Real::new(x.to_bits(), &format!("{x}"))
}

fn screen(id: &str, name: &str, channel: u32, layer: u32, x: f64, w: f64) -> Screen {
    Screen {
        id: id.into(),
        name: name.into(),
        channel,
        layer,
        rect: Rect { x: num(x), y: num(0.0), w: num(w), h: num(1.0) },
        corners: identity_corners(),
        enabled: true,
        opacity: num(1.0),
    }
}

fn show() -> Show {
    let mut s = Show::default();
    s.screens = vec![
        screen("left", "Left projector", 1, 10, 0.0, 0.5),
        screen("right", "Right projector", 2, 10, 0.5, 0.5),
    ];
    s
}

#[test]
fn a_screen_is_placed_by_fill_then_opacity() {
    let s = show();
    let cmds = wire(&s.screen("left").unwrap().mapping_commands());
    assert_eq!(cmds, vec!["MIXER 1-10 FILL 0 0 0.5 1", "MIXER 1-10 OPACITY 1"]);
}

#[test]
fn warped_corners_add_a_perspective() {
    let mut s = show();
    s.screens[0].corners = [
        (num(0.0), num(0.02)),
        (num(1.0), num(0.0)),
        (num(1.0), num(1.0)),
        (num(0.0), num(0.98)),
    ];
    let cmds = wire(&s.screen("left").unwrap().mapping_commands());
    assert_eq!(cmds.len(), 3);
    assert_eq!(cmds[1], "MIXER 1-10 PERSPECTIVE 0 0.02 1 0 1 1 0 0.98");
}

#[test]
fn a_negative_zero_corner_is_still_the_identity() {
    let mut s = show();
    s.screens[0].corners[0] = (num(-0.0), num(0.0));
    assert_eq!(s.screens[0].mapping_commands().len(), 2);
}

#[test]
fn a_disabled_screen_is_sent_zero_opacity() {
    let mut s = show();
    s.screens[0].enabled = false;
    let cmds = wire(&s.screen("left").unwrap().mapping_commands());
    assert!(cmds.contains(&"MIXER 1-10 OPACITY 0".to_string()));
}

#[test]
fn a_cue_compiles_across_screens() {
    let mut s = show();
    s.cues.push(Cue {
        id: "c1".into(),
        name: "Opening".into(),
        actions: vec![
            Action::Play {
                screen: "left".into(),
                clip: "opener_l".into(),
                looping: false,
                transition: Some(TransitionSpec {
                    kind: "mix".into(),
                    frames: 25,
                    tween: None,
                    direction: None,
                    sting: None,
                }),
            },
            Action::Play {
                screen: "right".into(),
                clip: "opener_r".into(),
                looping: false,
                transition: None,
            },
        ],
        follow: None,
        colour: None,
    });

    let cmds = wire(&s.compile_cue(s.cue("c1").unwrap()).unwrap());
    assert_eq!(cmds, vec!["PLAY 1-10 opener_l MIX 25", "PLAY 2-10 opener_r"]);
}

#[test]
fn an_unknown_screen_fails_the_whole_cue() {
    let s = show();
    let cue = Cue {
        id: "c".into(),
        name: "bad".into(),
        actions: vec![Action::Stop { screen: "left".into() }, Action::Stop { screen: "ghost".into() }],
        follow: None,
        colour: None,
    };
    assert_eq!(s.compile_cue(&cue), Err(UnknownScreen("ghost".into())));
    assert_eq!(
        UnknownScreen("ghost".into()).message(),
        "action refers to unknown screen 'ghost'"
    );
}

#[test]
fn a_raw_action_passes_straight_through() {
    let s = show();
    let cmds = wire(&s.compile_action(&Action::Raw { command: "CLEAR ALL".into() }).unwrap());
    assert_eq!(cmds, vec!["CLEAR ALL"]);
}

#[test]
fn an_opacity_fade_carries_its_frames_and_tween() {
    let s = show();
    let cmds = wire(
        &s.compile_action(&Action::Opacity {
            screen: "left".into(),
            value: num(0.0),
            frames: 50,
            tween: Some("easeoutquad".into()),
        })
        .unwrap(),
    );
    assert_eq!(cmds, vec!["MIXER 1-10 OPACITY 0 50 easeoutquad"]);
}

#[test]
fn load_then_take_is_a_two_step_change() {
    let s = show();
    let load = wire(
        &s.compile_action(&Action::Load {
            screen: "left".into(),
            clip: "next".into(),
            looping: false,
            transition: None,
        })
        .unwrap(),
    );
    let take = wire(&s.compile_action(&Action::Take { screen: "left".into() }).unwrap());
    assert_eq!(load, vec!["LOADBG 1-10 next"]);
    assert_eq!(take, vec!["PLAY 1-10"]);
}

#[test]
fn screens_sharing_a_layer_are_warned_about() {
    let mut s = show();
    assert!(s.warnings().is_empty());
    s.screens[1].channel = 1;
    s.screens[1].layer = 10;
    assert_eq!(s.warnings().len(), 1);
    assert!(s.warnings()[0].contains("channel 1 layer 10"));
    assert_eq!(
        s.warnings()[0],
        "'Left projector' and 'Right projector' both use channel 1 layer 10 — one will replace the other"
    );
}

#[test]
fn a_pad_pointing_at_a_missing_cue_is_warned_about() {
    let mut s = show();
    s.pads.push(Pad { index: 0, cue: "ghost".into() });
    assert_eq!(s.warnings().len(), 1);
    assert!(s.warnings()[0].contains("ghost"));
    assert_eq!(s.warnings()[0], "pad 0 fires missing cue 'ghost'");
}

#[test]
fn the_default_show_is_empty_and_untitled() {
    let s = Show::default();
    assert_eq!(s.canvas, Canvas::default());
    assert_eq!(s.grid, (8, 4));
    assert_eq!(s.name, "Untitled show");
    assert_eq!(Canvas::default(), Canvas { width: 1920, height: 1080 });
}

#[test]
fn transition_kinds_are_matched_in_any_case() {
    let spec = |kind: &str, direction: Option<&str>| TransitionSpec {
        kind: kind.into(),
        frames: 12,
        tween: Some("linear".into()),
        direction: direction.map(|d| d.to_string()),
        sting: None,
    };
    let s = show();
    let play = |t: TransitionSpec| {
        wire(
            &s.compile_action(&Action::Play {
                screen: "right".into(),
                clip: "x".into(),
                looping: true,
                transition: Some(t),
            })
            .unwrap(),
        )
    };
    assert_eq!(play(spec("PUSH", Some("left"))), vec!["PLAY 2-10 x LOOP PUSH 12 linear LEFT"]);
    assert_eq!(play(spec("Wipe", Some("Right"))), vec!["PLAY 2-10 x LOOP WIPE 12 linear"]);
    assert_eq!(play(spec("dissolve", None)), vec!["PLAY 2-10 x LOOP CUT 12 linear"]);
}

#[test]
fn templates_and_remaps_compile_on_the_screen_layer() {
    let s = show();
    let add = wire(
        &s.compile_action(&Action::Template {
            screen: "left".into(),
            template: "lower-third".into(),
            cg_layer: 2,
            data: None,
        })
        .unwrap(),
    );
    assert_eq!(add, vec!["CG 1-10 ADD 2 lower-third 1"]);
    let stop = wire(&s.compile_action(&Action::TemplateStop { screen: "left".into(), cg_layer: 2 }).unwrap());
    assert_eq!(stop, vec!["CG 1-10 STOP 2"]);
    let remap = wire(&s.compile_action(&Action::Remap { screen: "right".into() }).unwrap());
    assert_eq!(remap, vec!["MIXER 2-10 FILL 0.5 0 0.5 1", "MIXER 2-10 OPACITY 1"]);
}

#[test]
fn the_whole_layout_is_pushed_screen_by_screen() {
    let s = show();
    assert_eq!(
        wire(&s.mapping_commands()),
        vec![
            "MIXER 1-10 FILL 0 0 0.5 1",
            "MIXER 1-10 OPACITY 1",
            "MIXER 2-10 FILL 0.5 0 0.5 1",
            "MIXER 2-10 OPACITY 1"
        ]
    );
}

#[test]
fn firing_a_missing_cue_names_it() {
    let s = show();
    assert_eq!(s.cue_commands("nope"), Err(UnknownScreen("nope".into())));
}

#[test]
fn editing_finds_by_id_and_removal_cleans_up_pads() {
    let mut s = show();
    s.add_cue(Cue { id: "a".into(), name: "A".into(), actions: vec![], follow: None, colour: None });
    s.add_cue(Cue { id: "b".into(), name: "B".into(), actions: vec![], follow: None, colour: None });
    s.set_pads(vec![Pad { index: 0, cue: "a".into() }, Pad { index: 1, cue: "b".into() }]);
    s.remove_cue("a");
    assert_eq!(s.cues.len(), 1);
    assert_eq!(s.pads, vec![Pad { index: 1, cue: "b".into() }]);

    let moved = screen("left", "Moved", 3, 20, 0.25, 0.25);
    assert!(s.replace_screen("left", moved));
    assert_eq!(s.screens[0].channel, 3);
    assert!(!s.replace_screen("ghost", screen("ghost", "G", 1, 1, 0.0, 1.0)));
    s.remove_screen("right");
    assert_eq!(s.screens.len(), 1);
    assert!(s.replace_cue("b", Cue { id: "b".into(), name: "B2".into(), actions: vec![], follow: None, colour: None }));
    assert_eq!(s.cues[0].name, "B2");
}

#[test]
fn an_action_names_its_screen() {
    assert_eq!(Action::Pause { screen: "x".into() }.screen_id(), Some("x"));
    assert_eq!(Action::Raw { command: "CLS".into() }.screen_id(), None);
}

#[test]
fn a_show_with_screens_has_a_mapping_to_push() {
    let s = show();
    let v = mapping_request(&s).unwrap();
    assert_eq!(wire(&v), wire(&s.mapping_commands()));
    assert!(!v.is_empty());
}

#[test]
fn editing_keeps_the_show_name_canvas_and_grid() {
    let mut s = show();
    s.name = "Gala".into();
    s.grid = (6, 3);
    let canvas = s.canvas;
    s.add_cue(Cue { id: "a".into(), name: "A".into(), actions: vec![], follow: None, colour: None });
    s.remove_screen("right");
    s.set_pads(vec![Pad { index: 0, cue: "a".into() }]);
    s.remove_cue("a");
    assert_eq!(s.name, "Gala");
    assert_eq!(s.grid, (6, 3));
    assert_eq!(s.canvas, canvas);
}
