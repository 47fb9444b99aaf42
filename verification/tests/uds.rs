use audioipc::uds::{io_outcome, syscall_outcome, ConnectFuture, ConnectPoll, IoOutcome, WriteReadiness};

#[test]
fn syscall_results() {
    assert!(matches!(syscall_outcome(12, false), IoOutcome::Ready(12)));
    assert!(matches!(syscall_outcome(0, true), IoOutcome::Ready(0)));
    assert!(matches!(syscall_outcome(-1, true), IoOutcome::Retry));
    assert!(matches!(syscall_outcome(-1, false), IoOutcome::Failed(())));
}

#[test]
fn io_results() {
    assert!(matches!(io_outcome::<u8, &str>(Ok(4), true), IoOutcome::Ready(4)));
    assert!(matches!(io_outcome::<u8, &str>(Err("e"), true), IoOutcome::Retry));
    assert!(matches!(io_outcome::<u8, &str>(Err("e"), false), IoOutcome::Failed("e")));
}

#[test]
fn connect_resolves_to_stream_once_writable() {
    let mut f: ConnectFuture<u32, &str> = ConnectFuture::new(Ok(9));
    assert_eq!(f.stream(), Some(&9));
    assert!(matches!(f.poll(WriteReadiness::Pending), ConnectPoll::Pending));
    assert!(matches!(f.poll(WriteReadiness::Ready(Some("refused"))), ConnectPoll::Ready(Err("refused"))));
    assert!(matches!(f.poll(WriteReadiness::Failed("io")), ConnectPoll::Ready(Err("io"))));
    assert_eq!(f.stream(), Some(&9));
    assert!(matches!(f.poll(WriteReadiness::Ready(None)), ConnectPoll::Ready(Ok(9))));
    assert_eq!(f.stream(), None);
}

#[test]
fn connect_start_error() {
    let mut f: ConnectFuture<u32, &str> = ConnectFuture::new(Err("no such file"));
    assert_eq!(f.stream(), None);
    assert!(matches!(f.poll(WriteReadiness::Pending), ConnectPoll::Ready(Err("no such file"))));
}
