use conn_tracer::probes::{
    entry_recvmsg, entry_send, ret_recvmsg, ret_send, try_entry_recvmsg, try_entry_send,
    try_ret_recvmsg, try_ret_send, MsgHdr, SourceFunction, TracerMaps, TrafficDirection,
};

#[test]
fn send_entry_and_return_pair_into_one_sample() {
    let mut maps = TracerMaps::new(16);
    assert_eq!(entry_send(&mut maps, 42, 5, 0x1000), 0);
    let (code, sample) = ret_send(&mut maps, 42, 512);
    assert_eq!(code, 0);
    let sample = sample.unwrap();
    assert_eq!(sample.tid, 42);
    assert_eq!(sample.direction, TrafficDirection::Egress);
    assert_eq!(sample.args.source_function, SourceFunction::SyscallSend);
    assert_eq!(sample.args.fd, 5);
    assert_eq!(sample.args.buf, 0x1000);
    assert_eq!(sample.bytes_count, 512);
}

#[test]
fn return_without_entry_drops_the_sample() {
    let mut maps = TracerMaps::new(16);
    assert_eq!(ret_send(&mut maps, 7, 100), (1, None));
    assert_eq!(try_ret_send(&mut maps, 7, 100), Err(1));
    assert_eq!(ret_recvmsg(&mut maps, 7, 100), (1, None));
    assert_eq!(try_ret_recvmsg(&mut maps, 7, 100), Err(1));
}

#[test]
fn scratch_record_is_removed_on_every_return_path() {
    let mut maps = TracerMaps::new(16);
    assert_eq!(entry_send(&mut maps, 9, 3, 0x2000), 0);
    let (code, sample) = ret_send(&mut maps, 9, 64);
    assert_eq!(code, 0);
    assert!(sample.is_some());
    // the record is gone: a second return for the same thread is dropped
    assert_eq!(ret_send(&mut maps, 9, 64), (1, None));
}

#[test]
fn at_most_one_record_per_thread_entry_replaces() {
    let mut maps = TracerMaps::new(16);
    assert_eq!(entry_send(&mut maps, 11, 3, 0xAAAA), 0);
    assert_eq!(entry_send(&mut maps, 11, 4, 0xBBBB), 0);
    let (_, sample) = ret_send(&mut maps, 11, 10);
    let sample = sample.unwrap();
    assert_eq!(sample.args.fd, 4);
    assert_eq!(sample.args.buf, 0xBBBB);
    // one record, one sample
    assert_eq!(ret_send(&mut maps, 11, 10), (1, None));
}

#[test]
fn full_scratch_table_drops_new_records() {
    let mut maps = TracerMaps::new(1);
    assert_eq!(entry_send(&mut maps, 1, 3, 0x1), 0);
    // full: a second thread's record is dropped, not retried
    assert_eq!(entry_send(&mut maps, 2, 3, 0x2), 1);
    assert_eq!(try_entry_send(&mut maps, 2, 3, 0x2), Err(-1));
    assert_eq!(ret_send(&mut maps, 2, 5), (1, None));
    // the first thread's record still pairs
    let (code, sample) = ret_send(&mut maps, 1, 5);
    assert_eq!(code, 0);
    assert!(sample.is_some());
    // room again
    assert_eq!(entry_send(&mut maps, 2, 3, 0x2), 0);
}

#[test]
fn recvmsg_null_header_is_ignored() {
    let mut maps = TracerMaps::new(16);
    assert_eq!(entry_recvmsg(&mut maps, 21, 6, None), 0);
    assert_eq!(ret_recvmsg(&mut maps, 21, 256), (1, None));
}

#[test]
fn recvmsg_entry_and_return_pair_with_vectored_buffers() {
    let mut maps = TracerMaps::new(16);
    let hdr = MsgHdr { msg_name: 0, msg_iov: 0x3000, msg_iovlen: 4 };
    assert_eq!(entry_recvmsg(&mut maps, 33, 6, Some(hdr)), 0);
    let (code, sample) = ret_recvmsg(&mut maps, 33, 2048);
    assert_eq!(code, 0);
    let sample = sample.unwrap();
    assert_eq!(sample.direction, TrafficDirection::Ingress);
    assert_eq!(sample.args.source_function, SourceFunction::SyscallRecvMsg);
    assert_eq!(sample.args.iov, 0x3000);
    assert_eq!(sample.args.iovlen, 4);
    assert_eq!(sample.args.buf, 0);
    assert_eq!(sample.bytes_count, 2048);
}

#[test]
fn recvmsg_with_destination_address_records_an_implicit_connect() {
    let mut maps = TracerMaps::new(16);
    let hdr = MsgHdr { msg_name: 0x4000, msg_iov: 0x3000, msg_iovlen: 1 };
    assert_eq!(try_entry_recvmsg(&mut maps, 44, 6, Some(hdr)), Ok(0));
    // the return path consumes both the connect record and the data
    // record; afterwards neither remains
    let (code, sample) = ret_recvmsg(&mut maps, 44, 128);
    assert_eq!(code, 0);
    assert!(sample.is_some());
    assert_eq!(ret_recvmsg(&mut maps, 44, 128), (1, None));
}

#[test]
fn distinct_threads_keep_distinct_records() {
    let mut maps = TracerMaps::new(16);
    assert_eq!(entry_send(&mut maps, 100, 1, 0x10), 0);
    assert_eq!(entry_send(&mut maps, 200, 2, 0x20), 0);
    let (_, s2) = ret_send(&mut maps, 200, 22);
    let (_, s1) = ret_send(&mut maps, 100, 11);
    let s1 = s1.unwrap();
    let s2 = s2.unwrap();
    assert_eq!(s1.args.fd, 1);
    assert_eq!(s1.bytes_count, 11);
    assert_eq!(s2.args.fd, 2);
    assert_eq!(s2.bytes_count, 22);
}
