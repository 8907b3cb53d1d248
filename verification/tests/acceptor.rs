use std::cell::RefCell;

use sccache_net::{NamedPipeAcceptor, PendingInstance, PipeServerOptions, PipeServerRequest, SocketAddr};

const NAME: &str = r"\\.\pipe\sccache-test";

fn acceptor() -> NamedPipeAcceptor<RefCell<PendingInstance<u32>>> {
    NamedPipeAcceptor::bind::<()>(NAME, Ok(RefCell::new(PendingInstance::new(1)))).unwrap()
}

fn options(first_pipe_instance: bool) -> PipeServerOptions {
    PipeServerOptions {
        first_pipe_instance,
        reject_remote_clients: true,
        access_inbound: true,
        access_outbound: true,
        in_buffer_size: 65536,
        out_buffer_size: 65536,
    }
}

#[test]
fn only_the_first_instance_claims_the_name() {
    let first = NamedPipeAcceptor::<()>::first_instance(NAME);
    assert_eq!(first.name, NAME);
    assert_eq!(first.options, options(true));
    let next = acceptor().after_connect::<()>(Ok(())).unwrap();
    assert_eq!(next.name, NAME);
    assert_eq!(next.options, options(false));
    assert_eq!(PipeServerRequest::new("x", false).options, options(false));
}

#[test]
fn failed_bind_reports_its_error() {
    let bound = NamedPipeAcceptor::<u32>::bind(NAME, Err("access denied"));
    assert_eq!(bound.err(), Some("access denied"));
}

#[test]
fn local_addr_is_the_bound_pipe() {
    match acceptor().local_addr() {
        Some(SocketAddr::Pipe(p)) => assert_eq!(p, NAME),
        other => panic!("unexpected local_addr {other:?}"),
    }
    let addr = SocketAddr::parse_pipe("sccache-test");
    assert_eq!(acceptor().local_addr().unwrap().to_string(), addr.to_string());
}

#[test]
fn instances_are_handed_over_in_order() {
    let acceptor = acceptor();
    for round in 1..5u32 {
        assert!(acceptor.pending().borrow().is_armed());
        let server = acceptor.pending().borrow_mut().take();
        assert_eq!(server, round);
        assert!(!acceptor.pending().borrow().is_armed());
        assert!(acceptor.after_connect::<()>(Ok(())).is_ok());
        assert_eq!(acceptor.pending().borrow_mut().rearm::<()>(server, Ok(round + 1)), Ok(round));
    }
    assert_eq!(acceptor.pending().borrow_mut().take(), 5);
}

#[test]
fn failed_wait_leaves_nothing_pending() {
    let acceptor = acceptor();
    acceptor.pending().borrow_mut().take();
    assert_eq!(acceptor.after_connect(Err("broken")).err(), Some("broken"));
    assert!(!acceptor.pending().borrow().is_armed());
}

#[test]
fn failed_creation_leaves_nothing_pending() {
    let acceptor = acceptor();
    let server = acceptor.pending().borrow_mut().take();
    assert_eq!(acceptor.pending().borrow_mut().rearm(server, Err("no memory")), Err("no memory"));
    assert!(!acceptor.pending().borrow().is_armed());
}
