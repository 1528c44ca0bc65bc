use caspar_av::amcp::command::{escape, Command, Target};

#[test]
fn plain_parameters_are_not_quoted() {
    assert_eq!(escape("AMB"), "AMB");
    assert_eq!(escape("1.0"), "1.0");
    assert_eq!(escape("-0.5"), "-0.5");
}

#[test]
fn spaces_and_specials_force_quotes() {
    assert_eq!(escape("my clip"), "\"my clip\"");
    assert_eq!(escape(""), "\"\"");
    assert_eq!(escape("hue=h=120"), "hue=h=120");
    assert_eq!(escape("scale=(iw/2)"), "\"scale=(iw/2)\"");
}

#[test]
fn escapes_match_the_server_tokenizer() {
    assert_eq!(escape(r"C:\media\clip"), r#""C:\\media\\clip""#);
    assert_eq!(escape("say \"hi\""), r#""say \"hi\"""#);
    assert_eq!(escape("two\nlines"), "\"two\\nlines\"");
    assert_eq!(escape("cr\rlf"), "\"cr\\nlf\"");
}

#[test]
fn targets_render_in_amcp_form() {
    assert_eq!(Command::new("CLS").to_wire(), "CLS\r\n");
    assert_eq!(Command::new("CLEAR").channel(1).to_wire(), "CLEAR 1\r\n");
    assert_eq!(
        Command::new("PLAY").layer(1, 10).arg("AMB").arg("LOOP").to_wire(),
        "PLAY 1-10 AMB LOOP\r\n"
    );
}

#[test]
fn a_targeted_two_word_command_puts_the_target_in_the_middle() {
    assert_eq!(
        Command::new("MIXER OPACITY").layer(1, 10).arg("0.5").to_wire(),
        "MIXER 1-10 OPACITY 0.5\r\n"
    );
    assert_eq!(
        Command::new("MIXER FILL").layer(1, 10).args(&["0", "0", "0.5", "0.5"]).to_wire(),
        "MIXER 1-10 FILL 0 0 0.5 0.5\r\n"
    );
    assert_eq!(Command::new("MIXER CLEAR").channel(2).to_wire(), "MIXER 2 CLEAR\r\n");
    assert_eq!(
        Command::new("CG ADD").layer(1, 20).arg_num(1).arg("tpl").arg_num(1).to_wire(),
        "CG 1-20 ADD 1 tpl 1\r\n"
    );
}

#[test]
fn an_untargeted_two_word_command_keeps_its_words_together() {
    assert_eq!(Command::new("CLEAR ALL").to_wire(), "CLEAR ALL\r\n");
    assert_eq!(Command::new("INFO CONFIG").to_wire(), "INFO CONFIG\r\n");
    assert_eq!(
        Command::new("DATA STORE").arg("name").arg("payload").to_wire(),
        "DATA STORE name payload\r\n"
    );
    assert_eq!(Command::new("OSC SUBSCRIBE").arg_num(6250).to_wire(), "OSC SUBSCRIBE 6250\r\n");
}

#[test]
fn a_one_word_command_puts_the_target_after_the_name() {
    assert_eq!(Command::new("INFO").channel(1).to_wire(), "INFO 1\r\n");
    assert_eq!(Command::new("PLAY").layer(1, 10).to_wire(), "PLAY 1-10\r\n");
}

#[test]
fn opt_skips_none() {
    let c = Command::new("PLAY").layer(1, 10).arg("AMB").opt(None);
    assert_eq!(c.to_wire(), "PLAY 1-10 AMB\r\n");
    let c = Command::new("PLAY").layer(1, 10).arg("AMB").opt(Some("LOOP"));
    assert_eq!(c.to_wire(), "PLAY 1-10 AMB LOOP\r\n");
}

#[test]
fn display_omits_the_crlf() {
    assert_eq!(Command::new("PLAY").channel(1).to_string(), "PLAY 1");
}

#[test]
fn target_text_forms() {
    assert_eq!(Target::Server.to_string(), "-");
    assert_eq!(Target::Channel(3).to_string(), "3");
    assert_eq!(Target::Layer(2, 40).to_string(), "2-40");
    assert_eq!(Command::new("PLAY").target(Target::Layer(2, 40)).get_target(), Target::Layer(2, 40));
}

#[test]
fn escaping_round_trips_through_the_server_tokenizer() {
    // What the server reads back is the value, with a CR read as a newline.
    assert_eq!(escape("a\\b\"c"), "\"a\\\\b\\\"c\"");
    assert_eq!(escape("plain"), "plain");
    assert_eq!(escape("(x)"), "\"(x)\"");
}

#[test]
fn the_name_is_kept_as_given() {
    assert_eq!(Command::new("MIXER OPACITY").name(), "MIXER OPACITY");
    assert_eq!(Command::new("CG ADD").layer(1, 2).arg("x").to_string(), "CG 1-2 ADD x");
}
