use caspar_av::amcp::client::Error as AmcpError;
use caspar_av::amcp::command::Command;
use caspar_av::amcp::response::Decoder;
use caspar_av::bridge::{
    batch_request, batch_text, mapping_request, CommandLog, Config, Error, Handshake, Health,
    Heard, Library, LogEntry, ServerInfo, Step, Supervisor, LOG_CAPACITY,
};
use caspar_av::bridge::api_error;
use caspar_av::show::model::{Show, UnknownScreen};

#[test]
fn defaults_point_at_this_machine() {
    let c = Config::default();
    assert_eq!(c.host, "127.0.0.1");
    assert_eq!((c.amcp_port, c.scanner_port, c.osc_fallback_port), (5250, 8000, 6250));
}

#[test]
fn health_is_connecting_until_an_attempt_finishes() {
    let mut s = Supervisor::new();
    assert_eq!(s.health(), Health::Connecting);
    assert_eq!(s.failed(), 500);
    assert_eq!(s.health(), Health::Down);
    assert_eq!(s.failed(), 1000);
    assert_eq!(s.failed(), 2000);
    assert_eq!(s.failed(), 4000);
    assert_eq!(s.failed(), 5000);
    assert_eq!(s.failed(), 5000);
    s.connected();
    assert_eq!(s.health(), Health::Connected);
    s.lost();
    assert_eq!(s.health(), Health::Down);
    assert_eq!(s.failed(), 500, "a success starts the backoff over");
}

#[test]
fn the_log_keeps_the_latest_entries() {
    let mut log = CommandLog::new();
    for i in 0..(LOG_CAPACITY as u64 + 5) {
        log.record(LogEntry { at: i, command: "CLS".into(), code: Some(200), status: "OK".into(), ok: true });
    }
    assert_eq!(log.entries().len(), LOG_CAPACITY);
    assert_eq!(log.entries()[0].at, 5);
    assert_eq!(log.entries()[LOG_CAPACITY - 1].at, LOG_CAPACITY as u64 + 4);
}

#[test]
fn log_entries_record_replies_and_failures() {
    let reply = Decoder::new().feed(b"404 PLAY ERROR\r\n").remove(0);
    let e = LogEntry::answered(7, "PLAY 1-10", &reply);
    assert_eq!((e.code, e.status.as_str(), e.ok), (Some(404), "PLAY ERROR", false));
    let e = LogEntry::failed(8, "CLS", &AmcpError::Disconnected);
    assert_eq!((e.code, e.status.as_str(), e.ok), (None, "connection to the server was lost", false));
}

#[test]
fn a_batch_is_logged_as_one_line() {
    let cmds = vec![Command::new("PLAY").layer(1, 10), Command::new("STOP").layer(2, 10)];
    assert_eq!(batch_text(&cmds), "PLAY 1-10 · STOP 2-10");
    assert_eq!(batch_request(vec![]).unwrap_err(), Error::Offline);
    assert_eq!(batch_request(cmds).unwrap().1, "PLAY 1-10 · STOP 2-10");
    assert_eq!(mapping_request(&Show::default()).unwrap_err(), Error::Offline);
}

#[test]
fn the_handshake_asks_identifies_and_subscribes() {
    let mut info = ServerInfo::new("10.0.0.5", 5250);
    let (h, first) = Handshake::start();
    assert_eq!(first.to_string(), "VERSION");
    let version = Decoder::new().feed(b"201 VERSION OK\r\n2.5.0.0 STABLE\r\n").remove(0);
    let (h, step) = h.advance(&mut info, Heard::Reply(Ok(version)), 6250);
    assert!(matches!(step, Step::Send(ref c) if c.to_string() == "INFO PATHS"));
    assert_eq!(info.version.as_deref(), Some("2.5.0.0 STABLE"));
    let paths = Decoder::new().feed(b"200 INFO PATHS OK\r\na\r\nb\r\n\r\n").remove(0);
    let (h, step) = h.advance(&mut info, Heard::Reply(Ok(paths)), 6250);
    assert!(matches!(step, Step::BindPrivate));
    assert_eq!(info.paths.as_deref(), Some("a\nb"));
    let (h, step) = h.advance(&mut info, Heard::Bound(Some(40123)), 6250);
    assert!(matches!(step, Step::Send(ref c) if c.to_string() == "OSC SUBSCRIBE 40123"));
    let ok = Decoder::new().feed(b"202 OSC SUBSCRIBE OK\r\n").remove(0);
    let (h, step) = h.advance(&mut info, Heard::Reply(Ok(ok)), 6250);
    assert!(matches!(step, Step::Listen(40123)));
    assert_eq!(h, Handshake::Done);
    assert_eq!(info.osc_port, Some(40123));
}

#[test]
fn a_refused_subscription_falls_back_to_the_shared_port() {
    let mut info = ServerInfo::new("h", 5250);
    let (h, step) = Handshake::Subscribing(40000).advance(&mut info, Heard::Reply(Err(AmcpError::Disconnected)), 6250);
    assert!(matches!(step, Step::BindShared(6250)));
    let (h, step) = h.advance(&mut info, Heard::Bound(Some(6250)), 6250);
    assert!(matches!(step, Step::Listen(6250)));
    assert_eq!((h, info.osc_port), (Handshake::Done, Some(6250)));
    let (h, step) = Handshake::Shared.advance(&mut info, Heard::Bound(None), 6250);
    assert!(matches!(step, Step::Finish));
    assert_eq!(h, Handshake::Done);
}

#[test]
fn a_down_scanner_keeps_the_last_listing() {
    let mut lib: Library<u32, u32> = Library::new();
    lib.refresh(Some(vec![1, 2]), None, Some(vec!["ARIAL".into()]));
    assert!(lib.up);
    assert_eq!((lib.media.clone(), lib.templates.clone()), (vec![1, 2], vec![]));
    lib.refresh(None, Some(vec![9]), None);
    assert!(!lib.up);
    assert_eq!(lib.media, vec![1, 2]);
    assert_eq!(lib.fonts, vec!["ARIAL".to_string()]);
}

#[test]
fn each_bridge_failure_has_its_status() {
    let refused = AmcpError::Amcp { command: "PLAY 1-10".into(), code: 404, status: "PLAY ERROR".into() };
    let e = api_error(&Error::Amcp(refused));
    assert_eq!((e.status, e.message.as_str()), (502, "PLAY 1-10 failed: 404 PLAY ERROR"));
    let e = api_error(&Error::Show(UnknownScreen("x".into())));
    assert_eq!((e.status, e.message.as_str()), (400, "action refers to unknown screen 'x'"));
}

#[test]
fn a_failed_version_query_leaves_the_version_unknown() {
    let mut info = ServerInfo::new("h", 5250);
    let (h, step) = Handshake::Version.advance(&mut info, Heard::Reply(Err(AmcpError::Timeout("VERSION".into()))), 6250);
    assert_eq!(h, Handshake::Paths);
    assert!(matches!(step, Step::Send(_)));
    assert_eq!(info.version, None);
    let (h, step) = Handshake::Private.advance(&mut info, Heard::Bound(None), 6250);
    assert_eq!(h, Handshake::Shared);
    assert!(matches!(step, Step::BindShared(6250)));
}
