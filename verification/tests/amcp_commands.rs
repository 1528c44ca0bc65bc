use caspar_av::amcp::command::Command;
use caspar_av::amcp::commands::{
    cg_add, clear_all, clear_channel, clear_layer, load, loadbg, mixer_fill, mixer_opacity,
    mixer_perspective, play_clip, swap, Anim, Direction, Transition, TransitionKind,
};

fn wire(c: Command) -> String {
    c.to_wire().trim_end_matches("\r\n").to_string()
}

#[test]
fn play_with_loop_and_transition() {
    assert_eq!(
        wire(play_clip(1, 10, "AMB", true, Some(&Transition::mix(25)))),
        "PLAY 1-10 AMB LOOP MIX 25"
    );
}

#[test]
fn transitions_carry_tween_and_direction() {
    let t = Transition::push(12, Direction::Left).tween("easeinoutsine");
    assert_eq!(
        wire(loadbg(2, 1, "clip", false, Some(&t))),
        "LOADBG 2-1 clip PUSH 12 easeinoutsine LEFT"
    );
}

#[test]
fn a_sting_names_its_clip_instead_of_a_duration() {
    let t = Transition::sting("stings/wipe");
    assert_eq!(wire(play_clip(1, 1, "next", false, Some(&t))), "PLAY 1-1 next STING stings/wipe");
}

#[test]
fn instant_anim_adds_nothing() {
    assert_eq!(wire(mixer_opacity(1, 10, "0.5", &Anim::instant())), "MIXER 1-10 OPACITY 0.5");
}

#[test]
fn eased_anim_appends_duration_then_tween() {
    assert_eq!(
        wire(mixer_opacity(1, 10, "0.5", &Anim::eased(25, "easeoutquad"))),
        "MIXER 1-10 OPACITY 0.5 25 easeoutquad"
    );
}

#[test]
fn fill_and_perspective_carry_their_geometry() {
    assert_eq!(
        wire(mixer_fill(1, 10, "0", "0", "0.5", "0.5", &Anim::instant())),
        "MIXER 1-10 FILL 0 0 0.5 0.5"
    );
    let corners = [("0", "0"), ("1", "0.05"), ("1", "1"), ("0", "0.95")];
    assert_eq!(
        wire(mixer_perspective(1, 10, &corners, &Anim::instant())),
        "MIXER 1-10 PERSPECTIVE 0 0 1 0.05 1 1 0 0.95"
    );
}

#[test]
fn cg_add_encodes_play_on_load_as_a_flag() {
    assert_eq!(
        wire(cg_add(1, 20, 1, "lower-third", true, Some(r#"{"f0":"Hello"}"#))),
        r#"CG 1-20 ADD 1 lower-third 1 "{\"f0\":\"Hello\"}""#
    );
}

#[test]
fn clip_names_with_spaces_are_quoted() {
    assert_eq!(wire(load(1, 1, "my clip")), "LOAD 1-1 \"my clip\"");
}

#[test]
fn channel_and_layer_scopes_differ() {
    assert_eq!(wire(clear_channel(1)), "CLEAR 1");
    assert_eq!(wire(clear_layer(1, 10)), "CLEAR 1-10");
    assert_eq!(wire(clear_all()), "CLEAR ALL");
}

#[test]
fn a_cut_adds_its_kind_and_zero_frames() {
    assert_eq!(wire(play_clip(1, 10, "AMB", false, Some(&Transition::cut()))), "PLAY 1-10 AMB CUT 0");
    assert_eq!(wire(play_clip(1, 10, "AMB", false, None)), "PLAY 1-10 AMB");
}

#[test]
fn transition_words_are_upper_case() {
    assert_eq!(TransitionKind::Slide.word(), "SLIDE");
    assert_eq!(TransitionKind::Wipe.word(), "WIPE");
    assert_eq!(Direction::Right.word(), "RIGHT");
}

#[test]
fn swap_can_carry_the_transforms() {
    assert_eq!(wire(swap(1, 10, "2-10", true)), "SWAP 1-10 2-10 TRANSFORMS");
    assert_eq!(wire(swap(1, 10, "2-10", false)), "SWAP 1-10 2-10");
}

#[test]
fn a_linear_ramp_has_no_tween() {
    assert_eq!(wire(mixer_opacity(1, 10, "1", &Anim::frames(12))), "MIXER 1-10 OPACITY 1 12");
}
