use audioipc::rpc::driver::{Driver, Produced};
use audioipc::rpc::server::{bind_server, InFlight, ServerHandler};
use audioipc::rpc::Handler;

type TestHandler = ServerHandler<&'static str, (), u32, String>;

#[test]
fn new_driver_runs_and_is_not_done() {
    let d: Driver<TestHandler> = Driver::new(ServerHandler::new("srv", ()));
    assert!(d.is_receiving());
    assert!(!d.is_done());
    assert!(!d.has_in_flight());
}

#[test]
fn end_of_requests_stops_reading() {
    let mut d: Driver<TestHandler> = Driver::new(ServerHandler::new("srv", ()));
    assert_eq!(d.process_incoming(Some(5u8)), Some(5u8));
    assert!(d.is_receiving());
    assert_eq!(d.process_incoming::<u8>(None), None);
    assert!(!d.is_receiving());
    assert!(d.is_done());
    // A stopped driver stays stopped.
    assert_eq!(d.process_incoming(Some(1u8)), Some(1u8));
    assert!(!d.is_receiving());
}

#[test]
fn produced_messages() {
    let mut d: Driver<TestHandler> = Driver::new(ServerHandler::new("srv", ()));
    assert_eq!(d.send_outgoing(Produced::Ready(Some(3u8))), Some(3u8));
    assert_eq!(d.send_outgoing::<u8>(Produced::Pending), None);
    assert!(d.is_receiving());
    assert_eq!(d.send_outgoing::<u8>(Produced::Ready(None)), None);
    assert!(!d.is_receiving());
}

#[test]
fn not_done_until_flushed_and_answered() {
    let mut d = bind_server::<&str, (), u32, String>((), "srv");
    d.process_incoming::<u8>(None);
    d.flush(false);
    assert!(!d.is_done());
    d.flush(true);
    assert!(d.is_done());
    d.handler_mut().consume(1);
    assert!(d.has_in_flight());
    assert!(!d.is_done());
}

#[test]
fn responses_leave_in_request_order() {
    let mut h: TestHandler = ServerHandler::new("srv", ());
    h.consume(1);
    h.consume(2);
    assert!(h.has_in_flight());
    assert_eq!(h.in_flight_len(), 2);
    // The second response finishes first: nothing can leave yet.
    let mut e = h.take_in_flight(1);
    e.poll(Some("second".to_string()));
    h.restore_in_flight(1, e);
    assert_eq!(h.produce(), None);
    let mut e = h.take_in_flight(0);
    e.poll(None);
    h.restore_in_flight(0, e);
    assert_eq!(h.produce(), None);
    let mut e = h.take_in_flight(0);
    assert!(matches!(e, InFlight::Active(1)));
    e.poll(Some("first".to_string()));
    h.restore_in_flight(0, e);
    assert_eq!(h.in_flight_len(), 2);
    assert_eq!(h.produce(), Some("first".to_string()));
    assert_eq!(h.produce(), Some("second".to_string()));
    assert_eq!(h.produce(), None);
    assert!(!h.has_in_flight());
}

#[test]
fn polling_a_finished_entry_keeps_it() {
    let mut e: InFlight<u32, u32> = InFlight::Done(7);
    e.poll(Some(9));
    assert!(matches!(e, InFlight::Done(7)));
    let mut a: InFlight<u32, u32> = InFlight::Active(1);
    a.poll(None);
    assert!(matches!(a, InFlight::Active(1)));
    a.poll(Some(4));
    assert!(matches!(a, InFlight::Done(4)));
}

#[test]
fn handler_parts() {
    let mut h: TestHandler = ServerHandler::new("srv", ());
    assert_eq!(*h.server_mut(), "srv");
    *h.transport_mut() = ();
    h.consume(3);
    h.clear_in_flight();
    assert!(!h.has_in_flight());
}
