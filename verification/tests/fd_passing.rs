use audioipc::cmsg::{build_rights_msg, cmsg_space as lib_cmsg_space, parse_rights_msgs, CmsgLayout};
use audioipc::fd_passing::{
    clone_into_array, framed_with_platformhandles, FrameQueue, IncomingFds,
    BACKPRESSURE_THRESHOLD, FDS_CAPACITY,
};
use bytes::{BufMut, Bytes, BytesMut};

const FDS: [i32; 3] = [3, 4, 5];

/// The control message layout of the machine the tests run on.
fn native_layout() -> CmsgLayout {
    CmsgLayout {
        len_size: std::mem::size_of::<libc::cmsghdr>() - 8,
        align: std::mem::size_of::<usize>(),
        sol_socket: libc::SOL_SOCKET,
        scm_rights: libc::SCM_RIGHTS,
        big_endian: u32::from_ne_bytes([1, 0, 0, 0]) != 1,
    }
}

fn layout_32_le() -> CmsgLayout {
    CmsgLayout { len_size: 4, align: 4, sol_socket: 1, scm_rights: 1, big_endian: false }
}

fn layout_64_be() -> CmsgLayout {
    CmsgLayout { len_size: 8, align: 8, sol_socket: 0xffff, scm_rights: 1, big_endian: true }
}

fn cmsg_align(len: usize) -> usize {
    let a = std::mem::size_of::<usize>();
    (len + a - 1) & !(a - 1)
}

fn cmsg_space() -> usize {
    cmsg_align(std::mem::size_of::<libc::cmsghdr>()) + cmsg_align(std::mem::size_of::<[i32; 3]>())
}

/// One SCM_RIGHTS control message carrying three descriptors, in the
/// machine's own layout.
fn cmsg_bytes() -> Vec<u8> {
    let hdr = std::mem::size_of::<libc::cmsghdr>();
    let len = cmsg_align(hdr) + std::mem::size_of::<[i32; 3]>();
    let mut out = Vec::new();
    out.extend_from_slice(&len.to_ne_bytes());
    out.extend_from_slice(&libc::SOL_SOCKET.to_ne_bytes());
    out.extend_from_slice(&libc::SCM_RIGHTS.to_ne_bytes());
    assert_eq!(out.len(), hdr);
    for fd in FDS.iter() {
        out.extend_from_slice(&fd.to_ne_bytes());
    }
    out.resize(cmsg_space(), 0);
    out
}

#[test]
fn single_cmsg() {
    let mut incoming = IncomingFds::new(16, native_layout());

    incoming.cmsg().put_slice(&cmsg_bytes());
    assert!(incoming.take_fds().is_some());
    assert!(incoming.take_fds().is_none());
}

#[test]
fn multiple_cmsg_1() {
    let mut incoming = IncomingFds::new(16, native_layout());

    incoming.cmsg().put_slice(&cmsg_bytes());
    assert!(incoming.take_fds().is_some());
    incoming.cmsg().put_slice(&cmsg_bytes());
    assert!(incoming.take_fds().is_some());
    assert!(incoming.take_fds().is_none());
}

#[test]
fn multiple_cmsg_2() {
    let mut incoming = IncomingFds::new(16, native_layout());
    println!("cmsg_bytes() {}", cmsg_bytes().len());

    incoming.cmsg().put_slice(&cmsg_bytes());
    incoming.cmsg().put_slice(&cmsg_bytes());
    assert!(incoming.take_fds().is_some());
    incoming.cmsg().put_slice(&cmsg_bytes());
    assert!(incoming.take_fds().is_some());
    assert!(incoming.take_fds().is_some());
    assert!(incoming.take_fds().is_none());
}

#[test]
fn take_fds_parses_in_order() {
    let l = native_layout();
    let mut incoming = IncomingFds::new(FDS_CAPACITY, l);
    assert_eq!(incoming.take_fds(), None);
    assert_eq!(incoming.cmsg_room(), cmsg_space());
    assert_eq!(incoming.buffered_len(), 0);
    incoming.cmsg().unsplit(BytesMut::from(&build_rights_msg(&l, &[7, 8, 9])[..]));
    incoming.cmsg().put_slice(&build_rights_msg(&l, &[10, 11, 12]));
    assert_eq!(incoming.buffered_len(), 2 * cmsg_space());
    assert!(incoming.next_group_is_triple());
    assert_eq!(incoming.take_fds(), Some([7, 8, 9]));
    assert_eq!(incoming.buffered_len(), 0);
    assert_eq!(incoming.queued_len(), 1);
    assert_eq!(incoming.take_fds(), Some([10, 11, 12]));
    assert_eq!(incoming.take_fds(), None);
}

#[test]
fn a_triple_before_a_pair_is_handed_out_first() {
    let l = native_layout();
    let mut incoming = IncomingFds::new(FDS_CAPACITY, l);
    incoming.cmsg().put_slice(&build_rights_msg(&l, &[1, 2, 3]));
    incoming.cmsg().put_slice(&build_rights_msg(&l, &[4, 5]));
    assert!(incoming.next_group_is_triple());
    assert_eq!(incoming.take_fds(), Some([1, 2, 3]));
    assert_eq!(incoming.queued_len(), 1);
    assert!(!incoming.next_group_is_triple());
}

#[test]
fn groups_of_other_sizes_are_detected() {
    let l = native_layout();
    let mut incoming = IncomingFds::new(FDS_CAPACITY, l);
    assert!(incoming.next_group_is_triple());
    incoming.cmsg().put_slice(&build_rights_msg(&l, &[1, 2]));
    assert!(!incoming.next_group_is_triple());
    assert_eq!(incoming.cmsg_layout().len_size, l.len_size);
}

#[test]
fn cmsg_space_of_a_triple() {
    assert_eq!(lib_cmsg_space(&native_layout(), 12), cmsg_space());
    assert_eq!(lib_cmsg_space(&layout_32_le(), 12), 24);
    assert_eq!(lib_cmsg_space(&layout_64_be(), 12), 32);
    assert_eq!(lib_cmsg_space(&layout_32_le(), 5), 20);
}

#[test]
fn rights_message_layout() {
    let l = native_layout();
    assert_eq!(build_rights_msg(&l, &FDS), cmsg_bytes());
    let msg = build_rights_msg(&l, &[1, -2, 300]);
    assert_eq!(msg.len(), cmsg_space());
    assert_eq!(parse_rights_msgs(&l, &msg), vec![vec![1, -2, 300]]);
}

#[test]
fn rights_message_in_other_layouts() {
    let small = layout_32_le();
    let msg = build_rights_msg(&small, &[1, -2, 300]);
    assert_eq!(msg.len(), 24);
    assert_eq!(&msg[..4], &24u32.to_le_bytes()[..]);
    assert_eq!(&msg[4..8], &1i32.to_le_bytes()[..]);
    assert_eq!(&msg[12..16], &1i32.to_le_bytes()[..]);
    assert_eq!(&msg[16..20], &(-2i32).to_le_bytes()[..]);
    assert_eq!(parse_rights_msgs(&small, &msg), vec![vec![1, -2, 300]]);

    let big = layout_64_be();
    let msg = build_rights_msg(&big, &[1, 2]);
    assert_eq!(msg.len(), 24);
    assert_eq!(&msg[..8], &24u64.to_be_bytes()[..]);
    assert_eq!(&msg[8..12], &0xffffi32.to_be_bytes()[..]);
    assert_eq!(&msg[16..20], &1i32.to_be_bytes()[..]);
    assert_eq!(parse_rights_msgs(&big, &msg), vec![vec![1, 2]]);
    // Read in the wrong layout, the message gives nothing.
    assert!(parse_rights_msgs(&small, &msg).is_empty());
}

#[test]
fn parse_stops_and_skips() {
    let l = native_layout();
    // A header that does not fit, then nothing.
    assert!(parse_rights_msgs(&l, &[1, 2, 3]).is_empty());
    // A message of another type is passed over.
    let mut other = build_rights_msg(&l, &[4, 5, 6]);
    other[l.len_size + 4] = 2;
    let mut both = other.clone();
    both.extend_from_slice(&build_rights_msg(&l, &[7, 8, 9]));
    assert_eq!(parse_rights_msgs(&l, &both), vec![vec![7, 8, 9]]);
    // A length that runs past the end stops the parse.
    let mut bad = build_rights_msg(&l, &[1, 2, 3]);
    bad[0] = 200;
    assert!(parse_rights_msgs(&l, &bad).is_empty());
}

#[test]
fn several_messages_parse_in_order() {
    let l = layout_32_le();
    let mut all = build_rights_msg(&l, &[1]);
    all.extend_from_slice(&build_rights_msg(&l, &[2, 3, 4, 5]));
    all.extend_from_slice(&build_rights_msg(&l, &[]));
    assert_eq!(parse_rights_msgs(&l, &all), vec![vec![1], vec![2, 3, 4, 5], vec![]]);
}

#[test]
fn received_fds_are_the_sent_ones() {
    let mut incoming = IncomingFds::new(FDS_CAPACITY, native_layout());
    incoming.cmsg().put_slice(&cmsg_bytes());
    assert_eq!(incoming.take_fds(), Some(FDS));
}

#[test]
fn clone_into_array_copies() {
    assert_eq!(clone_into_array(&[1, 2, 3]), [1, 2, 3]);
}

#[test]
fn frames_split_on_descriptors() {
    let mut q = FrameQueue::new();
    q.start_send(BytesMut::from(&b"abc"[..]), None);
    assert_eq!(q.buffered_len(), 3);
    assert!(q.next_send().is_none());
    q.start_send(BytesMut::from(&b"de"[..]), Some(Bytes::from_static(b"FD")));
    assert_eq!(q.buffered_len(), 0);
    let (msgs, cmsg) = q.next_send().unwrap();
    assert_eq!(&msgs[..], b"abcde");
    assert_eq!(&cmsg[..], b"FD");
}

#[test]
fn partial_send_requeues_rest_without_fds() {
    let mut q = FrameQueue::new();
    q.start_send(BytesMut::from(&b"hello"[..]), Some(Bytes::from_static(b"FD")));
    q.start_send(BytesMut::from(&b"world"[..]), None);
    assert!(q.accepts(&BytesMut::from(&b"x"[..]), true));
    assert!(FrameQueue::new().accepts(&BytesMut::new(), false));
    assert!(!FrameQueue::new().accepts(&BytesMut::new(), true));
    q.begin_write();
    assert_eq!(q.buffered_len(), 0);

    let (msgs, cmsg) = q.next_send().unwrap();
    assert_eq!(&msgs[..], b"hello");
    assert_eq!(&cmsg[..], b"FD");
    assert_eq!(q.front_len(), Some(5));
    let closed = q.sent(2);
    assert_eq!(&closed.unwrap()[..], b"FD");
    assert_eq!(q.front_len(), Some(3));

    let (msgs, cmsg) = q.next_send().unwrap();
    assert_eq!(&msgs[..], b"llo");
    assert!(cmsg.is_empty());
    let closed = q.sent(3);
    assert!(closed.is_none());

    let (msgs, _) = q.next_send().unwrap();
    assert_eq!(&msgs[..], b"world");
    let closed = q.sent(5);
    assert!(closed.is_none());
    assert!(q.next_send().is_none());
    assert_eq!(q.front_len(), None);
}

#[test]
fn sent_bytes_are_the_queued_ones_in_order() {
    let mut q = FrameQueue::new();
    q.start_send(BytesMut::from(&b"ab"[..]), None);
    q.start_send(BytesMut::from(&b"cd"[..]), Some(Bytes::from_static(b"F")));
    q.start_send(BytesMut::from(&b"ef"[..]), None);
    q.begin_write();
    let mut out = Vec::new();
    while let Some((msgs, _)) = q.next_send() {
        let n = if msgs.len() > 1 { 1 } else { msgs.len() };
        out.extend_from_slice(&msgs[..n]);
        q.sent(n);
    }
    assert_eq!(out, b"abcdef".to_vec());
}

#[test]
fn set_frame_without_bytes_does_nothing() {
    let mut q = FrameQueue::new();
    q.set_frame(None);
    assert!(q.next_send().is_none());
    q.begin_write();
    assert!(q.next_send().is_none());
}

#[test]
fn backpressure_threshold() {
    let mut f = framed_with_platformhandles((), (), native_layout());
    assert_eq!(BACKPRESSURE_THRESHOLD, 4096);
    f.writer.start_send(BytesMut::from(&vec![0u8; 4096][..]), None);
    assert!(!f.poll_ready_needs_flush());
    f.writer.start_send(BytesMut::from(&b"x"[..]), None);
    assert!(f.poll_ready_needs_flush());
    f.writer.begin_write();
    assert!(!f.poll_ready_needs_flush());
}
