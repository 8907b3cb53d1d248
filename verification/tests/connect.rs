use sccache_net::{ConnectAttempts, ConnectStep, OpenOutcome, PipeOpenRequest, SocketAddr};

fn failed(error: &'static str, raw_os_error: Option<i32>) -> OpenOutcome<u32, &'static str> {
    OpenOutcome::Failed { error, raw_os_error }
}

fn run(addr: &SocketAddr, outcomes: Vec<OpenOutcome<u32, &'static str>>) -> (u32, Result<u32, &'static str>) {
    let mut attempts = ConnectAttempts::new(addr);
    let mut opened = 0;
    for outcome in outcomes {
        opened += 1;
        match attempts.step(outcome) {
            ConnectStep::Finished(result) => return (opened, result),
            ConnectStep::RetryAfter { millis } => assert_eq!(millis, 50),
        }
    }
    panic!("still connecting")
}

fn pipe() -> SocketAddr {
    SocketAddr::parse_pipe("sccache-test")
}

#[test]
fn missing_pipe_is_reported_at_once() {
    assert_eq!(run(&pipe(), vec![failed("not found", Some(2))]), (1, Err("not found")));
    assert_eq!(run(&pipe(), vec![failed("other", None)]), (1, Err("other")));
}

#[test]
fn open_pipe_is_reported_at_once() {
    assert_eq!(run(&pipe(), vec![OpenOutcome::Opened(7)]), (1, Ok(7)));
}

#[test]
fn busy_pipe_is_tried_again() {
    let outcomes = vec![failed("busy", Some(231)), failed("busy", Some(231)), OpenOutcome::Opened(9)];
    assert_eq!(run(&pipe(), outcomes), (3, Ok(9)));
    let outcomes = vec![failed("busy", Some(231)), failed("gone", Some(2))];
    assert_eq!(run(&pipe(), outcomes), (2, Err("gone")));
}

#[test]
fn busy_pipe_is_given_up_after_five_retries() {
    let names = ["1", "2", "3", "4", "5", "6", "7"];
    let outcomes = names.iter().map(|n| failed(n, Some(231))).collect();
    assert_eq!(run(&pipe(), outcomes), (6, Err("6")));
    let mut outcomes: Vec<_> = names[..5].iter().map(|n| failed(n, Some(231))).collect();
    outcomes.push(OpenOutcome::Opened(1));
    assert_eq!(run(&pipe(), outcomes), (6, Ok(1)));
}

#[test]
fn other_transports_are_tried_once() {
    for addr in [
        SocketAddr::with_port(4226),
        SocketAddr::Unix(vec![47]),
        SocketAddr::UnixAbstract(vec![47]),
    ] {
        assert_eq!(run(&addr, vec![failed("code", Some(231))]), (1, Err("code")));
        assert_eq!(run(&addr, vec![OpenOutcome::Opened(3)]), (1, Ok(3)));
    }
}

#[test]
fn pipe_is_opened_for_reading_and_writing() {
    let request = PipeOpenRequest::new(r"\\.\pipe\sccache-test");
    assert_eq!(request.path, r"\\.\pipe\sccache-test");
    assert!(request.read);
    assert!(request.write);
}
