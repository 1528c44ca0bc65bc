use caspar_av::amcp::client::{is_pong, settle, Awaited, Error, Route, Session};
use caspar_av::amcp::command::Command;
use caspar_av::amcp::commands::{cls, play};
use caspar_av::amcp::response::{Decoder, Response};

fn wires(p: &caspar_av::amcp::client::Plan) -> Vec<(String, Option<u64>)> {
    p.writes.iter().map(|o| (o.wire.clone(), o.reply_to)).collect()
}

fn decode(s: &str) -> Vec<Response> {
    Decoder::new().feed(s.as_bytes())
}

#[test]
fn a_command_goes_out_tagged_with_the_next_id() {
    let mut s = Session::new();
    let p = s.send(&play(1, 10)).unwrap();
    assert_eq!(wires(&p), vec![("REQ 1 PLAY 1-10\r\n".to_string(), Some(1))]);
    assert_eq!(p.awaited, Awaited::Tagged(1));
    let p = s.send(&cls()).unwrap();
    assert_eq!(wires(&p), vec![("REQ 2 CLS\r\n".to_string(), Some(2))]);
}

#[test]
fn replies_are_routed_by_id_not_by_order() {
    let mut s = Session::new();
    s.expect(1);
    s.expect(2);
    let r = decode("RES 2 202 STOP OK\r\nRES 1 201 VERSION OK\r\n2.5.0.0 STABLE\r\n100 INFO\r\nRES 9 202 OK\r\n");
    assert_eq!(s.route(&r[0]), Route::Deliver(2));
    assert_eq!(s.route(&r[1]), Route::Deliver(1));
    assert_eq!(s.route(&r[2]), Route::Broadcast);
    assert_eq!(s.route(&r[3]), Route::Broadcast);
    assert_eq!(s.route(&r[0]), Route::Broadcast, "a reply is delivered once");
}

#[test]
fn a_batch_is_wrapped_in_begin_and_commit() {
    let mut s = Session::new();
    let cmds = vec![
        Command::new("PLAY").layer(1, 10).arg("a"),
        Command::new("PLAY").layer(2, 10).arg("b"),
    ];
    let p = s.batch(&cmds).unwrap();
    assert_eq!(
        wires(&p),
        vec![
            ("REQ 1 BEGIN\r\n".to_string(), None),
            ("REQ 2 PLAY 1-10 a\r\n".to_string(), None),
            ("REQ 3 PLAY 2-10 b\r\n".to_string(), None),
            ("COMMIT\r\n".to_string(), Some(1)),
        ]
    );
    assert_eq!(p.awaited, Awaited::Tagged(1));
    assert_eq!(p.label, "COMMIT");
    let next = s.send(&cls()).unwrap();
    assert_eq!(next.awaited, Awaited::Tagged(4));
}

#[test]
fn a_single_command_batch_skips_the_wrapper() {
    let mut s = Session::new();
    let p = s.batch(&[play(1, 10)]).unwrap();
    assert_eq!(wires(&p), vec![("REQ 1 PLAY 1-10\r\n".to_string(), Some(1))]);
}

#[test]
fn an_empty_batch_is_refused() {
    let mut s = Session::new();
    match s.batch(&[]) {
        Err(Error::Amcp { command, code, status }) => {
            assert_eq!((command.as_str(), code, status.as_str()), ("BEGIN", 400, "empty batch"));
        }
        _ => panic!("expected a refusal"),
    }
}

#[test]
fn ping_goes_out_bare_and_waits_for_pong() {
    let mut s = Session::new();
    let p = s.send(&Command::new("ping")).unwrap();
    assert_eq!(wires(&p), vec![("ping\r\n".to_string(), None)]);
    assert_eq!(p.awaited, Awaited::Pong);
    assert!(is_pong(&decode("PONG\r\n")[0]));
    assert!(!is_pong(&decode("202 PLAY OK\r\n")[0]));
    assert_eq!(s.send(&cls()).unwrap().awaited, Awaited::Tagged(1));
}

#[test]
fn a_closed_session_refuses_and_forgets_its_waiters() {
    let mut s = Session::new();
    s.expect(1);
    s.close();
    assert!(s.is_closed());
    assert!(matches!(s.send(&cls()), Err(Error::Disconnected)));
    assert_eq!(s.route(&decode("RES 1 202 OK\r\n")[0]), Route::Broadcast);
}

#[test]
fn an_error_reply_becomes_an_error_when_checked() {
    let mut s = Session::new();
    let p = s.send(&play(1, 10)).unwrap();
    let reply = decode("RES 1 404 PLAY ERROR\r\n").remove(0);
    match settle(p.checked, reply.clone()) {
        Err(e @ Error::Amcp { .. }) => assert_eq!(e.message(), "PLAY 1-10 failed: 404 PLAY ERROR"),
        other => panic!("expected an AMCP error, got {other:?}"),
    }
    assert_eq!(settle(None, reply.clone()), Ok(reply));
}

#[test]
fn a_waiter_that_gives_up_is_not_delivered_to() {
    let mut s = Session::new();
    s.expect(5);
    s.give_up(5);
    assert_eq!(s.route(&decode("RES 5 202 OK\r\n")[0]), Route::Broadcast);
    assert_eq!(Error::Timeout("CLS".into()).message(), "timed out waiting for a reply to CLS");
    assert_eq!(Error::Disconnected.message(), "connection to the server was lost");
    assert_eq!(Error::Io("refused".into()).message(), "i/o error: refused");
}
