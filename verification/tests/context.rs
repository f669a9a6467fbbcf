use rdma_kv::cli::KeyValueOpt;
use rdma_kv::cli::RdmaOpt;
use rdma_kv::codec::decode_message;
use rdma_kv::codec::encode_op;
use rdma_kv::codec::Message;
use rdma_kv::context::select_device;
use rdma_kv::context::Opcode;
use rdma_kv::context::QpState;
use rdma_kv::context::RdmaContext;
use rdma_kv::context::MTU_1024;
use rdma_kv::context::WC_SUCCESS;
use rdma_kv::context::WR_ID_RECV;
use rdma_kv::context::WR_ID_SEND;
use rdma_kv::descriptor::encode_descriptor;
use rdma_kv::descriptor::ConnectionDescriptor;
use rdma_kv::errors::RdmaError;
use rdma_kv::gid::Gid;

const CAP: usize = 100;

fn server_opt() -> RdmaOpt {
    RdmaOpt::default()
}

fn client_opt() -> RdmaOpt {
    let mut o = RdmaOpt::default();
    o.server = Some("192.0.2.1".to_string());
    o
}

fn peer_descriptor() -> ConnectionDescriptor {
    ConnectionDescriptor {
        addr: 0x1000,
        rkey: 0x2222,
        qp_num: 77,
        lid: 9,
        gid: Gid { raw: [3; 16] },
    }
}

/// Drive a fresh context through the whole chain with successful driver
/// results, as the unverified shell would after bootstrap.
fn context_at_rts(config: &RdmaOpt) -> RdmaContext {
    let mut ctx = RdmaContext::create(config, CAP);
    ctx.init_attrs().unwrap();
    ctx.commit_init(0).unwrap();
    let wire = encode_descriptor(&peer_descriptor());
    ctx.install_remote(&wire).unwrap();
    ctx.rtr_attrs().unwrap();
    ctx.commit_rtr(0).unwrap();
    ctx.rts_attrs().unwrap();
    ctx.commit_rts(0).unwrap();
    assert_eq!(ctx.state, QpState::Rts);
    ctx
}

#[test]
fn create_assigns_roles() {
    let server = RdmaContext::create(&server_opt(), CAP);
    assert!(server.kv_store.is_some());
    let client = RdmaContext::create(&client_opt(), CAP);
    assert!(client.kv_store.is_none());
    assert_eq!(client.state, QpState::Reset);
    assert_eq!(client.buf, vec![0u8; CAP]);
    assert_eq!(client.path_mtu, MTU_1024);
}

#[test]
fn full_chain_reaches_rts() {
    let ctx = context_at_rts(&client_opt());
    assert_eq!(ctx.state, QpState::Rts);
    assert_eq!(ctx.remote.unwrap(), peer_descriptor());
}

#[test]
fn rtr_before_remote_descriptor_fails() {
    let mut ctx = RdmaContext::create(&client_opt(), CAP);
    ctx.commit_init(0).unwrap();
    assert_eq!(ctx.state, QpState::Init);
    // No descriptor installed: both the attribute plan and the commit refuse.
    assert!(matches!(ctx.rtr_attrs(), Err(RdmaError::InvalidTransition)));
    assert_eq!(ctx.commit_rtr(0), Err(RdmaError::InvalidTransition));
    assert_eq!(ctx.state, QpState::Init);
}

#[test]
fn transitions_cannot_run_out_of_order() {
    let mut ctx = RdmaContext::create(&client_opt(), CAP);
    assert_eq!(ctx.commit_rts(0), Err(RdmaError::InvalidTransition));
    assert_eq!(ctx.commit_rtr(0), Err(RdmaError::InvalidTransition));
    assert!(matches!(ctx.rts_attrs(), Err(RdmaError::InvalidTransition)));
    ctx.commit_init(0).unwrap();
    // A second INIT step is refused: the chain never moves backwards.
    assert_eq!(ctx.commit_init(0), Err(RdmaError::InvalidTransition));
    assert!(matches!(ctx.init_attrs(), Err(RdmaError::InvalidTransition)));
    assert_eq!(ctx.state, QpState::Init);
}

#[test]
fn failed_modify_is_fatal() {
    let mut ctx = RdmaContext::create(&client_opt(), CAP);
    assert_eq!(ctx.commit_init(22), Err(RdmaError::QpModifyError(22)));
    assert_eq!(ctx.state, QpState::Error);
    assert_eq!(ctx.commit_init(0), Err(RdmaError::InvalidTransition));
}

#[test]
fn install_remote_happens_exactly_once() {
    let mut ctx = RdmaContext::create(&client_opt(), CAP);
    let wire = encode_descriptor(&peer_descriptor());
    ctx.install_remote(&wire).unwrap();
    assert_eq!(ctx.install_remote(&wire), Err(RdmaError::InvalidTransition));
    assert_eq!(ctx.remote.unwrap(), peer_descriptor());
}

#[test]
fn install_remote_rejects_short_reads() {
    let mut ctx = RdmaContext::create(&client_opt(), CAP);
    assert_eq!(ctx.install_remote(&[1, 2, 3]), Err(RdmaError::BootstrapIoError));
    assert!(ctx.remote.is_none());
}

#[test]
fn rtr_attributes_carry_the_peer() {
    let mut ctx = RdmaContext::create(&client_opt(), CAP);
    ctx.commit_init(0).unwrap();
    ctx.install_remote(&encode_descriptor(&peer_descriptor())).unwrap();
    let a = ctx.rtr_attrs().unwrap();
    assert_eq!(a.dest_qp_num, 77);
    assert_eq!(a.dlid, 9);
    assert_eq!(a.path_mtu, MTU_1024);
    assert_eq!(a.rq_psn, 0);
    assert_eq!(a.max_dest_rd_atomic, 1);
    assert_eq!(a.min_rnr_timer, 0x12);
    // The default GID index 0 selects global addressing.
    assert!(a.is_global);
    assert_eq!(a.dgid, Gid { raw: [3; 16] });
    assert_eq!(a.hop_limit, 1);
    assert_eq!(a.sgid_index, 0);
    assert_eq!(a.traffic_class, 0);
}

#[test]
fn rts_attributes_match_the_design() {
    let mut ctx = RdmaContext::create(&client_opt(), CAP);
    ctx.commit_init(0).unwrap();
    ctx.install_remote(&encode_descriptor(&peer_descriptor())).unwrap();
    ctx.commit_rtr(0).unwrap();
    let a = ctx.rts_attrs().unwrap();
    assert_eq!(a.timeout, 0x12);
    assert_eq!(a.retry_cnt, 6);
    assert_eq!(a.rnr_retry, 0);
    assert_eq!(a.sq_psn, 0);
    assert_eq!(a.max_rd_atomic, 1);
}

#[test]
fn data_plane_requires_rts() {
    let ctx = RdmaContext::create(&client_opt(), CAP);
    assert!(matches!(ctx.send_wr(Opcode::Send), Err(RdmaError::InvalidTransition)));
    assert!(matches!(ctx.recv_wr(), Err(RdmaError::InvalidTransition)));
}

#[test]
fn one_sided_requests_carry_remote_addressing() {
    let ctx = context_at_rts(&client_opt());
    let w = ctx.send_wr(Opcode::RdmaWrite).unwrap();
    assert_eq!(w.remote, Some((0x1000, 0x2222)));
    assert_eq!(w.length, CAP);
    assert!(w.signaled);
    assert_eq!(w.wr_id, WR_ID_SEND);
    let r = ctx.send_wr(Opcode::RdmaRead).unwrap();
    assert_eq!(r.remote, Some((0x1000, 0x2222)));
    let s = ctx.send_wr(Opcode::Send).unwrap();
    assert_eq!(s.remote, None);
    let recv = ctx.recv_wr().unwrap();
    assert_eq!(recv.length, CAP);
    assert_eq!(recv.wr_id, WR_ID_RECV);
}

#[test]
fn failed_post_reports_the_code() {
    let mut ctx = context_at_rts(&client_opt());
    assert_eq!(ctx.commit_post_send(12), Err(RdmaError::PostError(12)));
    assert!(!ctx.send_outstanding);
    assert_eq!(ctx.commit_post_receive(11), Err(RdmaError::PostError(11)));
    assert!(!ctx.recv_outstanding);
    ctx.commit_post_send(0).unwrap();
    assert!(ctx.send_outstanding);
}

#[test]
fn successful_completion_clears_the_right_request() {
    let mut ctx = context_at_rts(&client_opt());
    ctx.commit_post_send(0).unwrap();
    ctx.commit_post_receive(0).unwrap();
    ctx.poll_completion(1, WR_ID_SEND, WC_SUCCESS, 0).unwrap();
    assert!(!ctx.send_outstanding);
    assert!(ctx.recv_outstanding);
    ctx.poll_completion(1, WR_ID_RECV, WC_SUCCESS, 0).unwrap();
    assert!(!ctx.recv_outstanding);
    assert_eq!(ctx.state, QpState::Rts);
}

#[test]
fn failed_completion_is_fatal_and_touches_nothing() {
    let mut ctx = context_at_rts(&server_opt());
    // Give the store and the buffer observable content first.
    ctx.set_bytes_to_buf(&encode_op(&KeyValueOpt::Put {
        key: "k".to_string(),
        value: "v".to_string(),
    }))
    .unwrap();
    ctx.process_kv_opt().unwrap();
    let buf_before = ctx.buf.clone();
    let r = ctx.poll_completion(1, WR_ID_SEND, 5, 7);
    assert_eq!(r, Err(RdmaError::CompletionError { status: 5, vendor_syndrome: 7 }));
    assert_eq!(ctx.state, QpState::Error);
    assert_eq!(ctx.buf, buf_before);
    assert_eq!(
        ctx.kv_store.as_ref().unwrap().get(&"k".to_string()),
        Some("v".to_string())
    );
    // A negative poll result is the same failure.
    let mut ctx2 = context_at_rts(&client_opt());
    let r2 = ctx2.poll_completion(-1, WR_ID_SEND, WC_SUCCESS, 0);
    assert!(matches!(r2, Err(RdmaError::CompletionError { .. })));
    assert_eq!(ctx2.state, QpState::Error);
}

#[test]
fn set_bytes_pads_and_never_truncates() {
    let mut ctx = context_at_rts(&client_opt());
    ctx.set_bytes_to_buf(&[1, 2, 3]).unwrap();
    let mut expected = vec![1u8, 2, 3];
    expected.resize(CAP, 0);
    assert_eq!(ctx.buf, expected);
    let too_long = vec![9u8; CAP + 1];
    assert_eq!(ctx.set_bytes_to_buf(&too_long), Err(RdmaError::EncodingError));
    assert_eq!(ctx.buf, expected);
    let exactly = vec![8u8; CAP];
    ctx.set_bytes_to_buf(&exactly).unwrap();
    assert_eq!(ctx.buf, exactly);
}

#[test]
fn client_prepare_request_stages_the_write() {
    let mut ctx = context_at_rts(&client_opt());
    let op = KeyValueOpt::Put { key: "k".to_string(), value: "v".to_string() };
    let (wr, needs_receive) = ctx.prepare_request(&op).unwrap();
    assert_eq!(wr.opcode, Opcode::RdmaWrite);
    assert_eq!(wr.remote, Some((0x1000, 0x2222)));
    assert!(!needs_receive);
    assert_eq!(decode_message(&ctx.buf).unwrap(), Message::Op(op));

    let get = KeyValueOpt::Get { key: "k".to_string() };
    let (_, needs_receive) = ctx.prepare_request(&get).unwrap();
    assert!(needs_receive, "a lookup must pre-post a receive for the reply");
}

#[test]
fn prepare_request_refuses_oversized_operations() {
    let mut ctx = context_at_rts(&client_opt());
    let op = KeyValueOpt::Put { key: "k".repeat(CAP), value: "v".to_string() };
    assert_eq!(ctx.prepare_request(&op), Err(RdmaError::EncodingError));
    let mut fresh = RdmaContext::create(&client_opt(), CAP);
    assert_eq!(
        fresh.prepare_request(&KeyValueOpt::Get { key: "k".to_string() }),
        Err(RdmaError::InvalidTransition)
    );
}

#[test]
fn server_flow_put_get_delete() {
    let mut ctx = context_at_rts(&server_opt());

    // Put: the store learns the pair, no reply is sent.
    ctx.set_bytes_to_buf(&encode_op(&KeyValueOpt::Put {
        key: "k".to_string(),
        value: "v".to_string(),
    }))
    .unwrap();
    assert!(ctx.process_kv_opt().unwrap().is_none());

    // Get: the store is untouched, the reply sits in the buffer, and a
    // two-sided send must carry it back.
    ctx.set_bytes_to_buf(&encode_op(&KeyValueOpt::Get { key: "k".to_string() }))
        .unwrap();
    let wr = ctx.process_kv_opt().unwrap().expect("a lookup answers with a send");
    assert_eq!(wr.opcode, Opcode::Send);
    assert_eq!(wr.remote, None);
    assert_eq!(decode_message(&ctx.buf).unwrap(), Message::Reply("v".to_string()));
    assert_eq!(ctx.read_the_buf().unwrap(), "v");

    // Delete, then Get: the sentinel comes back.
    ctx.set_bytes_to_buf(&encode_op(&KeyValueOpt::Delete { key: "k".to_string() }))
        .unwrap();
    assert!(ctx.process_kv_opt().unwrap().is_none());
    ctx.set_bytes_to_buf(&encode_op(&KeyValueOpt::Get { key: "k".to_string() }))
        .unwrap();
    ctx.process_kv_opt().unwrap().expect("a lookup answers with a send");
    assert_eq!(ctx.read_the_buf().unwrap(), "key not found");
}

#[test]
fn server_get_on_empty_store_answers_sentinel() {
    let mut ctx = context_at_rts(&server_opt());
    ctx.set_bytes_to_buf(&encode_op(&KeyValueOpt::Get { key: "nope".to_string() }))
        .unwrap();
    ctx.process_kv_opt().unwrap().expect("a lookup answers with a send");
    assert_eq!(ctx.read_the_buf().unwrap(), "key not found");
}

#[test]
fn server_refuses_malformed_buffer_and_keeps_state() {
    let mut ctx = context_at_rts(&server_opt());
    ctx.set_bytes_to_buf(&encode_op(&KeyValueOpt::Put {
        key: "k".to_string(),
        value: "v".to_string(),
    }))
    .unwrap();
    ctx.process_kv_opt().unwrap();
    // Garbage in the buffer: refused, the store survives.
    ctx.set_bytes_to_buf(&[0x58, 0x59]).unwrap();
    let buf_before = ctx.buf.clone();
    assert_eq!(ctx.process_kv_opt(), Err(RdmaError::EncodingError));
    assert_eq!(ctx.buf, buf_before);
    assert_eq!(
        ctx.kv_store.as_ref().unwrap().get(&"k".to_string()),
        Some("v".to_string())
    );
}

#[test]
fn read_the_buf_rejects_non_replies() {
    let mut ctx = context_at_rts(&client_opt());
    ctx.set_bytes_to_buf(&encode_op(&KeyValueOpt::Get { key: "k".to_string() }))
        .unwrap();
    assert_eq!(ctx.read_the_buf(), Err(RdmaError::EncodingError));
}

#[test]
fn select_device_picks_named_or_first() {
    let names = vec!["mlx5_0".to_string(), "mlx5_1".to_string()];
    assert_eq!(select_device(&names, &None), Ok(0));
    assert_eq!(select_device(&names, &Some("mlx5_1".to_string())), Ok(1));
    assert_eq!(
        select_device(&names, &Some("mlx4_0".to_string())),
        Err(RdmaError::DeviceNotFound)
    );
    let empty: Vec<String> = Vec::new();
    assert_eq!(select_device(&empty, &None), Err(RdmaError::DeviceNotFound));
}
