use compostbin::apple_container::error::EngineError;
use compostbin::apple_container::fake::RecordingEngine;
use compostbin::host::ports::{
    listed, send, splice, waiting, BindStep, Binding, Failure, Forward, PortEvent, ReadOutcome, Refused,
    Sending, Splice, Upstream, Watch, WriteOutcome, APPEAR_GRACE, VANISH_GRACE,
};
use compostbin::paths::PathBuf;

fn forward(port: u16) -> Forward {
    Forward::to_loopback(&PathBuf::from("/state/ports"), port)
}

#[test]
fn names_a_socket_after_its_port() {
    let forward = Forward::to_loopback(&PathBuf::from("/state/ports"), 7001);

    assert_eq!(forward.listen, PathBuf::from("/state/ports/7001.sock"));
    assert_eq!(forward.upstream, Upstream { host: "127.0.0.1".to_string(), port: 7001 });
    assert_eq!(forward.upstream.to_string(), "127.0.0.1:7001");
    assert_eq!(forward.port(), 7001);
}

#[test]
fn sockets_of_different_ports_are_named_apart() {
    assert_ne!(forward(7001).listen, forward(700).listen);
    assert_ne!(forward(1).listen, forward(10).listen);
}

#[test]
fn binding_fails_whole() {
    let mut binding = Binding::bind_all(vec![forward(7001), forward(7002)]);

    assert_eq!(binding.next(), Some(&forward(7001)));
    assert_eq!(binding.attempted(true), BindStep::Report(PortEvent::Listening(forward(7001))));
    assert_eq!(binding.next(), Some(&forward(7002)));
    assert_eq!(binding.attempted(false), BindStep::GiveUp);
}

#[test]
fn binds_every_forward_in_order() {
    let mut binding = Binding::bind_all(vec![forward(7001), forward(7002)]);
    let mut events = Vec::new();
    while binding.next().is_some() {
        events.push(binding.attempted(true));
    }

    assert_eq!(
        events,
        [
            BindStep::Report(PortEvent::Listening(forward(7001))),
            BindStep::Report(PortEvent::Listening(forward(7002))),
        ]
    );
}

#[test]
fn refused_upstream_reports_once() {
    let mut refused = Refused::new();
    let reported: Vec<PortEvent> = [(); 2]
        .iter()
        .filter_map(|_| refused.connect(forward(7001), Some("connection refused".to_string())))
        .collect();

    assert_eq!(
        reported,
        [PortEvent::UpstreamRefused(forward(7001), "connection refused".to_string())]
    );
}

#[test]
fn a_connection_that_succeeds_lets_the_next_refusal_be_reported() {
    let mut refused = Refused::new();

    assert!(refused.connect(forward(7001), Some("refused".to_string())).is_some());
    assert_eq!(refused.connect(forward(7001), None), None);
    assert!(refused.connect(forward(7001), Some("refused".to_string())).is_some());
}

#[test]
fn an_event_names_its_port() {
    let listening = PortEvent::Listening(forward(7001)).to_string();
    let refused = PortEvent::UpstreamRefused(forward(7001), "nobody".to_string()).to_string();

    assert!(listening.contains("7001"), "{listening}");
    assert!(refused.contains("7001") && refused.contains("nobody"), "{refused}");
}

#[test]
fn waits_for_a_container_that_is_not_there_yet() {
    let mut watch = Watch::new(0);

    assert!(!watch.watch(Some(false), APPEAR_GRACE, APPEAR_GRACE, VANISH_GRACE));
    assert!(watch.watch(Some(false), APPEAR_GRACE + 1, APPEAR_GRACE, VANISH_GRACE));
}

#[test]
fn a_restart_is_not_the_end_of_the_session() {
    let mut watch = Watch::new(0);

    assert!(!watch.watch(Some(true), 1_000, APPEAR_GRACE, VANISH_GRACE));
    assert!(!watch.watch(Some(false), 1_000 + VANISH_GRACE, APPEAR_GRACE, VANISH_GRACE));
    assert!(!watch.watch(Some(true), 40_000, APPEAR_GRACE, VANISH_GRACE));
    assert!(watch.watch(Some(false), 40_001 + VANISH_GRACE, APPEAR_GRACE, VANISH_GRACE));
}

#[test]
fn an_engine_that_cannot_say_counts_as_running() {
    let mut watch = Watch::new(0);

    assert!(!watch.watch(None, 500_000, APPEAR_GRACE, VANISH_GRACE));
    assert_eq!(watch, Watch { appeared: true, waiting_since: 500_000 });
}

#[test]
fn stops_with_a_connection_open() {
    for failure in [Failure::WouldBlock, Failure::TimedOut, Failure::Interrupted] {
        assert!(waiting(failure));
        assert_eq!(splice(ReadOutcome::Failed(failure), false), Splice::Again);
        assert_eq!(splice(ReadOutcome::Failed(failure), true), Splice::End);
    }
    assert!(!waiting(Failure::Other));
}

#[test]
fn relays_what_was_read_until_the_end() {
    assert_eq!(splice(ReadOutcome::Read(5), false), Splice::Send(5));
    assert_eq!(splice(ReadOutcome::Read(0), false), Splice::End);
    assert_eq!(splice(ReadOutcome::Failed(Failure::Other), false), Splice::End);
}

#[test]
fn sends_the_rest_after_a_short_write() {
    assert_eq!(send(0, 5, WriteOutcome::Wrote(2), false), Sending::From(2));
    assert_eq!(send(2, 5, WriteOutcome::Wrote(3), false), Sending::Complete);
    assert_eq!(send(2, 5, WriteOutcome::Wrote(0), false), Sending::Broken);
    assert_eq!(send(2, 5, WriteOutcome::Failed(Failure::WouldBlock), false), Sending::From(2));
    assert_eq!(send(2, 5, WriteOutcome::Failed(Failure::WouldBlock), true), Sending::Broken);
    assert_eq!(send(2, 5, WriteOutcome::Failed(Failure::Other), false), Sending::Broken);
}

#[test]
fn a_container_is_there_where_the_engine_lists_it() {
    let names = Ok(vec!["compostbin-other".to_string(), "compostbin-cb".to_string()]);

    assert_eq!(listed("compostbin-cb", &names), Some(true));
    assert_eq!(listed("compostbin", &names), Some(false));
    assert_eq!(listed("compostbin-cb", &Ok(Vec::new())), Some(false));
    assert_eq!(
        listed(
            "compostbin-cb",
            &Err(EngineError::Spawn { argv: Vec::new(), source: "no daemon".to_string() })
        ),
        None
    );
}

#[test]
fn a_relay_looks_for_its_container_by_name() {
    let mut watch = Watch::new(0);
    let mut engine = RecordingEngine::with_containers(&[("compostbin-cb", false)]);

    assert!(
        !watch.look("compostbin-cb", &mut engine, APPEAR_GRACE + 1, APPEAR_GRACE, VANISH_GRACE),
        "one that has stopped is still there"
    );
    assert!(watch.appeared);
    assert_eq!(engine.calls(), [["ls", "--all", "--quiet"]]);

    let gone = APPEAR_GRACE + 1 + VANISH_GRACE + 1;
    let mut engine = RecordingEngine::new();
    assert!(watch.look("compostbin-cb", &mut engine, gone, APPEAR_GRACE, VANISH_GRACE));
}
