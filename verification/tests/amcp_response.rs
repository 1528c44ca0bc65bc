use caspar_av::amcp::response::{Decoder, Response, PONG_CODE};

fn decode(s: &str) -> Vec<Response> {
    Decoder::new().feed(s.as_bytes())
}

#[test]
fn code_202_has_no_data() {
    let r = decode("202 PLAY OK\r\n");
    assert_eq!(r.len(), 1);
    assert_eq!(r[0].code, 202);
    assert_eq!(r[0].status, "PLAY OK");
    assert!(r[0].lines.is_empty());
    assert!(r[0].is_ok());
}

#[test]
fn code_201_takes_exactly_one_line() {
    let r = decode("201 VERSION OK\r\n2.5.0.0 STABLE\r\n202 PLAY OK\r\n");
    assert_eq!(r.len(), 2);
    assert_eq!(r[0].single(), Some("2.5.0.0 STABLE"));
    assert_eq!(r[1].code, 202);
}

#[test]
fn code_200_runs_until_a_blank_line() {
    let r = decode("200 INFO OK\r\n1 720p5000 PLAYING\r\n2 1080p2500 PLAYING\r\n\r\n");
    assert_eq!(r.len(), 1);
    assert_eq!(r[0].lines, vec!["1 720p5000 PLAYING", "2 1080p2500 PLAYING"]);
}

#[test]
fn empty_200_is_just_the_blank_line() {
    let r = decode("200 CLS OK\r\n\r\n");
    assert_eq!(r.len(), 1);
    assert!(r[0].lines.is_empty());
}

#[test]
fn errors_are_single_line() {
    let r = decode("404 PLAY ERROR\r\n");
    assert_eq!(r.len(), 1);
    assert!(r[0].is_error());
    assert!(!r[0].is_ok());
}

#[test]
fn code_400_echoes_the_offending_command() {
    let r = decode("400 ERROR\r\nNOSUCHCOMMAND\r\n202 PLAY OK\r\n");
    assert_eq!(r.len(), 2);
    assert_eq!(r[0].code, 400);
    assert_eq!(r[0].single(), Some("NOSUCHCOMMAND"));
    assert_eq!(r[1].code, 202, "the next response must still be framed correctly");
}

#[test]
fn other_error_codes_carry_no_data() {
    let r = decode("401 PLAY ERROR\r\n402 MIXER ERROR\r\n500 FAILED\r\n503 PLAY FAILED\r\n");
    assert_eq!(r.len(), 4);
    assert!(r.iter().all(|x| x.lines.is_empty()));
    assert_eq!(r[3].code, 503);
}

#[test]
fn pong_is_surfaced_rather_than_dropped() {
    let r = decode("PONG hello\r\n");
    assert_eq!(r.len(), 1);
    assert_eq!(r[0].code, PONG_CODE);
    assert_eq!(r[0].status, "PONG hello");
    assert!(r[0].is_ok());
    assert_eq!(r[0].id, None);
}

#[test]
fn split_across_reads() {
    let mut d = Decoder::new();
    assert!(d.feed(b"201 VER").is_empty());
    assert!(d.feed(b"SION OK\r\n2.5.").is_empty());
    let r = d.feed(b"0.0 STABLE\r\n");
    assert_eq!(r.len(), 1);
    assert_eq!(r[0].single(), Some("2.5.0.0 STABLE"));
}

#[test]
fn notifications_are_flagged_and_101_carries_a_line() {
    let r = decode("101 INFO\r\nsome event\r\n");
    assert_eq!(r.len(), 1);
    assert!(r[0].is_notification());
    assert_eq!(r[0].single(), Some("some event"));
}

#[test]
fn a_blank_line_inside_200_data_ends_it() {
    let r = decode("200 CLS OK\r\na\r\n\r\n202 PLAY OK\r\n");
    assert_eq!(r.len(), 2);
    assert_eq!(r[0].lines, vec!["a"]);
    assert_eq!(r[1].code, 202);
}

#[test]
fn bare_lf_is_accepted() {
    let r = decode("202 PLAY OK\n");
    assert_eq!(r.len(), 1);
    assert_eq!(r[0].id, None);
}

#[test]
fn res_prefix_carries_the_request_id() {
    let r = decode("RES 42 202 PLAY OK\r\n");
    assert_eq!(r.len(), 1);
    assert_eq!(r[0].id.as_deref(), Some("42"));
    assert_eq!(r[0].code, 202);
    assert_eq!(r[0].status, "PLAY OK");
}

#[test]
fn res_prefix_only_tags_the_status_line_of_a_200() {
    let r = decode("RES 7 200 INFO OK\r\n1 720p5000 PLAYING\r\n\r\n");
    assert_eq!(r.len(), 1);
    assert_eq!(r[0].id.as_deref(), Some("7"));
    assert_eq!(r[0].lines, vec!["1 720p5000 PLAYING"]);
}

#[test]
fn replies_may_arrive_out_of_order() {
    let r = decode("RES 2 202 PLAY OK\r\nRES 1 202 STOP OK\r\n");
    assert_eq!(r.len(), 2);
    assert_eq!(r[0].id.as_deref(), Some("2"));
    assert_eq!(r[1].id.as_deref(), Some("1"));
}

#[test]
fn a_batch_replies_per_command_plus_one_commit() {
    let r = decode("RES 2 202 PLAY OK\r\nRES 3 202 PLAY OK\r\nRES 1 202 COMMIT OK\r\n");
    assert_eq!(r.len(), 3);
    assert_eq!(r[2].status, "COMMIT OK");
}

#[test]
fn feeding_in_pieces_gives_what_feeding_at_once_gives() {
    let whole = "RES 7 200 INFO OK\r\n1 720p5000 PLAYING\r\n\r\n101 INFO\r\nx\r\n";
    let at_once = decode(whole);
    let mut d = Decoder::new();
    let mut pieces = Vec::new();
    for chunk in whole.as_bytes().chunks(3) {
        pieces.extend(d.feed(chunk));
    }
    assert_eq!(at_once, pieces);
}

#[test]
fn a_partial_line_waits_for_its_end() {
    let mut d = Decoder::new();
    assert!(d.feed(b"202 PLAY OK").is_empty());
    assert_eq!(d.feed(b"\r\n").len(), 1);
}

#[test]
fn an_unparseable_status_line_is_not_invented_into_a_reply() {
    let r = decode("hello\r\n202 PLAY OK\r\n");
    assert_eq!(r.last().unwrap().code, 202);
}
