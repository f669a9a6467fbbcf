use crate::cli::KeyValueOpt;
use crate::cli::RdmaOpt;
use crate::codec::decode_message;
use crate::codec::encode_message;
use crate::codec::encode_op;
use crate::codec::pad_to;
use crate::codec::spec_decode_msg;
use crate::codec::spec_encode_msg;
use crate::codec::spec_pad;
use crate::codec::Message;
use crate::codec::MessageView;
use crate::descriptor::decode_descriptor;
use crate::descriptor::spec_encode_descriptor;
use crate::descriptor::ConnectionDescriptor;
use crate::descriptor::DESCRIPTOR_LEN;
use crate::errors::RdmaError;
use crate::gid::Gid;
use crate::kv::apply_op;
use crate::kv::spec_get_reply;
use crate::kv::KVStore;
use vstd::prelude::*;

verus! {

/// States of the reliable-connected queue pair.
#[derive(Clone, Copy, Debug, PartialEq, Eq, Structural)]
pub enum QpState {
    Reset,
    Init,
    Rtr,
    Rts,
    Error,
}

/// Position of a state on the forward chain.
pub open spec fn rank(s: QpState) -> int {
    match s {
        QpState::Reset => 0,
        QpState::Init => 1,
        QpState::Rtr => 2,
        QpState::Rts => 3,
        QpState::Error => 4,
    }
}

/// The steps the chain allows: RESET→INIT, INIT→RTR, RTR→RTS, nothing else.
pub open spec fn spec_advance(s: QpState, target: QpState) -> bool {
    ||| (s == QpState::Reset && target == QpState::Init)
    ||| (s == QpState::Init && target == QpState::Rtr)
    ||| (s == QpState::Rtr && target == QpState::Rts)
}

/// Queue-pair transitions only ever move RESET→INIT→RTR→RTS: every step the
/// chain allows raises the rank by exactly one, no step leaves or enters the
/// error state, and no step can be undone.
pub proof fn lemma_qp_forward_only(s: QpState, t: QpState)
    ensures
        spec_advance(s, t) ==> rank(t) == rank(s) + 1,
        spec_advance(s, t) ==> s != QpState::Error && t != QpState::Error,
        !(spec_advance(s, t) && spec_advance(t, s)),
{
}

/// Memory-region and queue-pair access bits, as the verbs interface
/// numbers them.
pub const ACCESS_LOCAL_WRITE: u32 = 1;

pub const ACCESS_REMOTE_WRITE: u32 = 2;

pub const ACCESS_REMOTE_READ: u32 = 4;

/// Code of the 1024-byte path MTU in the verbs interface.
pub const MTU_1024: u32 = 3;

/// Identifier carried by the completion of a send-side request.
pub const WR_ID_SEND: u64 = 0;

/// Identifier carried by the completion of a receive request.
pub const WR_ID_RECV: u64 = 100;

/// Completion status that reports success.
pub const WC_SUCCESS: u32 = 0;

/// Driver values of the RESET→INIT step.
#[derive(Clone, Copy, Debug, PartialEq, Eq)]
pub struct InitAttrs {
    pub port_num: u8,
    pub pkey_index: u16,
    pub qp_access_flags: u32,
}

/// Driver values of the INIT→RTR step. The address fields come from the
/// peer's descriptor; the global-routing fields matter only when
/// `is_global` is set.
#[derive(Clone, Copy, Debug, PartialEq, Eq)]
pub struct RtrAttrs {
    pub path_mtu: u32,
    pub dest_qp_num: u32,
    pub rq_psn: u32,
    pub max_dest_rd_atomic: u8,
    pub min_rnr_timer: u8,
    pub is_global: bool,
    pub dlid: u16,
    pub sl: u8,
    pub src_path_bits: u8,
    pub port_num: u8,
    pub dgid: Gid,
    pub flow_label: u32,
    pub hop_limit: u8,
    pub sgid_index: u8,
    pub traffic_class: u8,
}

/// Driver values of the RTR→RTS step.
#[derive(Clone, Copy, Debug, PartialEq, Eq)]
pub struct RtsAttrs {
    pub timeout: u8,
    pub retry_cnt: u8,
    pub rnr_retry: u8,
    pub sq_psn: u32,
    pub max_rd_atomic: u8,
}

/// Send-side opcodes the data plane uses.
#[derive(Clone, Copy, Debug, PartialEq, Eq, Structural)]
pub enum Opcode {
    Send,
    RdmaWrite,
    RdmaRead,
}

/// One send-side work request: a single scatter/gather entry over the whole
/// buffer, always signaled so that every request produces a completion.
/// One-sided opcodes carry the peer's buffer address and access token.
#[derive(Clone, Copy, Debug, PartialEq, Eq)]
pub struct SendWr {
    pub opcode: Opcode,
    pub length: usize,
    pub signaled: bool,
    pub wr_id: u64,
    pub remote: Option<(u64, u32)>,
}

/// One receive request covering the whole buffer.
#[derive(Clone, Copy, Debug, PartialEq, Eq)]
pub struct RecvWr {
    pub length: usize,
    pub wr_id: u64,
}

/// The verified core of one connection: the queue-pair state, the peer's
/// descriptor once known, the shared buffer, and — in the server role — the
/// key-value store. The adapter handles themselves live outside; their raw
/// results are fed into the commit steps here.
pub struct RdmaContext {
    pub state: QpState,
    pub remote: Option<ConnectionDescriptor>,
    pub buf: Vec<u8>,
    pub capacity: usize,
    pub kv_store: Option<KVStore>,
    pub send_outstanding: bool,
    pub recv_outstanding: bool,
    pub gidx: i32,
    pub ib_port: u8,
    pub path_mtu: u32,
}

/// The fixed configuration of a context never changes after creation.
pub open spec fn same_config(pre: RdmaContext, post: RdmaContext) -> bool {
    &&& post.capacity == pre.capacity
    &&& post.gidx == pre.gidx
    &&& post.ib_port == pre.ib_port
    &&& post.path_mtu == pre.path_mtu
}

/// Everything except the queue-pair state is unchanged.
pub open spec fn only_state_changed(pre: RdmaContext, post: RdmaContext) -> bool {
    &&& same_config(pre, post)
    &&& post.remote == pre.remote
    &&& post.buf == pre.buf
    &&& post.kv_store == pre.kv_store
    &&& post.send_outstanding == pre.send_outstanding
    &&& post.recv_outstanding == pre.recv_outstanding
}

/// Everything except the buffer content is unchanged.
pub open spec fn only_buf_changed(pre: RdmaContext, post: RdmaContext) -> bool {
    &&& same_config(pre, post)
    &&& post.state == pre.state
    &&& post.remote == pre.remote
    &&& post.kv_store == pre.kv_store
    &&& post.send_outstanding == pre.send_outstanding
    &&& post.recv_outstanding == pre.recv_outstanding
}

/// The store, the buffer and the peer descriptor are unchanged; only the
/// queue-pair state and the outstanding-request flags may move.
pub open spec fn data_unchanged(pre: RdmaContext, post: RdmaContext) -> bool {
    &&& same_config(pre, post)
    &&& post.remote == pre.remote
    &&& post.buf == pre.buf
    &&& post.kv_store == pre.kv_store
}

impl RdmaContext {
    /// The buffer always spans the full capacity, the server role owns a
    /// well-formed store, and the peer is known from RTR on.
    pub open spec fn wf(self) -> bool {
        &&& self.buf@.len() == self.capacity
        &&& self.capacity >= 1
        &&& (self.kv_store matches Some(kv) ==> kv.wf())
        &&& ((self.state == QpState::Rtr || self.state == QpState::Rts) ==> self.remote is Some)
    }

    /// A fresh context: queue pair in RESET, a zeroed buffer of the given
    /// capacity, no peer yet, and a store exactly when no peer host is
    /// configured (the server role).
    pub fn create(config: &RdmaOpt, capacity: usize) -> (r: Self)
        requires
            capacity >= 1,
        ensures
            r.wf(),
            r.state == QpState::Reset,
            r.remote is None,
            r.capacity == capacity,
            r.buf@ == Seq::new(capacity as nat, |i: int| 0u8),
            r.kv_store is Some <==> config.server is None,
            r.kv_store matches Some(kv) ==> kv@ == Map::<Seq<char>, Seq<char>>::empty(),
            !r.send_outstanding && !r.recv_outstanding,
            r.gidx == config.gidx,
            r.ib_port == config.ib_port,
            r.path_mtu == MTU_1024,
    {
        let buf = vec![0u8; capacity];
        proof {
            assert(buf@ =~= Seq::new(capacity as nat, |i: int| 0u8));
        }
        let kv_store = if config.server.is_none() {
            Some(KVStore::new())
        } else {
            None
        };
        RdmaContext {
            state: QpState::Reset,
            remote: None,
            buf,
            capacity,
            kv_store,
            send_outstanding: false,
            recv_outstanding: false,
            gidx: config.gidx,
            ib_port: config.ib_port,
            path_mtu: MTU_1024,
        }
    }

    /// Record the peer's descriptor received over the side channel — exactly
    /// once per lifetime, and only a byte string of exactly one descriptor
    /// is accepted.
    pub fn install_remote(&mut self, bytes: &[u8]) -> (r: Result<(), RdmaError>)
        requires
            old(self).wf(),
        ensures
            final(self).wf(),
            same_config(*old(self), *final(self)),
            final(self).state == old(self).state,
            final(self).buf == old(self).buf,
            final(self).kv_store == old(self).kv_store,
            final(self).send_outstanding == old(self).send_outstanding,
            final(self).recv_outstanding == old(self).recv_outstanding,
            old(self).remote is Some ==> r == Err::<(), RdmaError>(RdmaError::InvalidTransition)
                && final(self).remote == old(self).remote,
            old(self).remote is None && bytes@.len() != DESCRIPTOR_LEN ==> r == Err::<
                (),
                RdmaError,
            >(RdmaError::BootstrapIoError) && final(self).remote is None,
            old(self).remote is None && bytes@.len() == DESCRIPTOR_LEN ==> r is Ok && (final(self).remote matches Some(d) && spec_encode_descriptor(d) == bytes@),
    {
        if self.remote.is_some() {
            return Err(RdmaError::InvalidTransition);
        }
        match decode_descriptor(bytes) {
            Ok(d) => {
                self.remote = Some(d);
                Ok(())
            },
            Err(e) => Err(e),
        }
    }

    /// Driver values of the RESET→INIT step: the configured port,
    /// partition-key index zero, local-write/remote-read/remote-write
    /// access. Available exactly in RESET.
    pub fn init_attrs(&self) -> (r: Result<InitAttrs, RdmaError>)
        ensures
            r is Ok <==> self.state == QpState::Reset,
            r matches Ok(a) ==> a.port_num == self.ib_port && a.pkey_index == 0
                && a.qp_access_flags == (ACCESS_LOCAL_WRITE | ACCESS_REMOTE_READ
                | ACCESS_REMOTE_WRITE),
            r matches Err(e) ==> e == RdmaError::InvalidTransition,
    {
        if self.state == QpState::Reset {
            Ok(
                InitAttrs {
                    port_num: self.ib_port,
                    pkey_index: 0,
                    qp_access_flags: ACCESS_LOCAL_WRITE | ACCESS_REMOTE_READ
                        | ACCESS_REMOTE_WRITE,
                },
            )
        } else {
            Err(RdmaError::InvalidTransition)
        }
    }

    /// Outcome of the RESET→INIT modify call, given the driver's return
    /// code: zero advances the chain, anything else is fatal.
    pub fn commit_init(&mut self, rc: i32) -> (r: Result<(), RdmaError>)
        requires
            old(self).wf(),
        ensures
            final(self).wf(),
            only_state_changed(*old(self), *final(self)),
            final(self).state != old(self).state && final(self).state != QpState::Error
                ==> spec_advance(old(self).state, final(self).state),
            old(self).state != QpState::Reset ==> r == Err::<(), RdmaError>(
                RdmaError::InvalidTransition,
            ) && final(self).state == old(self).state,
            old(self).state == QpState::Reset && rc == 0 ==> r is Ok && final(self).state
                == QpState::Init,
            old(self).state == QpState::Reset && rc != 0 ==> r == Err::<(), RdmaError>(
                RdmaError::QpModifyError(rc),
            ) && final(self).state == QpState::Error,
    {
        if self.state != QpState::Reset {
            return Err(RdmaError::InvalidTransition);
        }
        if rc == 0 {
            self.state = QpState::Init;
            Ok(())
        } else {
            self.state = QpState::Error;
            Err(RdmaError::QpModifyError(rc))
        }
    }

    /// Driver values of the INIT→RTR step, taken from the peer's descriptor:
    /// the path MTU, the peer's queue-pair number, receive sequence number
    /// zero, one outstanding destination atomic, the minimum RNR timer, and
    /// the addressing — global through the GID when a non-negative GID index
    /// is configured, local through the LID otherwise. Attempting this step
    /// before the peer's descriptor is known fails rather than proceeding
    /// with zeroed peer fields.
    pub fn rtr_attrs(&self) -> (r: Result<RtrAttrs, RdmaError>)
        ensures
            r is Ok <==> (self.state == QpState::Init && self.remote is Some),
            r matches Ok(a) ==> {
                let d = self.remote.unwrap();
                &&& a.path_mtu == self.path_mtu
                &&& a.dest_qp_num == d.qp_num
                &&& a.rq_psn == 0
                &&& a.max_dest_rd_atomic == 1
                &&& a.min_rnr_timer == 0x12
                &&& a.dlid == d.lid
                &&& a.sl == 0
                &&& a.src_path_bits == 0
                &&& a.is_global == (self.gidx >= 0)
                &&& (self.gidx >= 0 ==> a.port_num == 1 && a.dgid == d.gid && a.flow_label == 0
                    && a.hop_limit == 1 && a.sgid_index == self.gidx as u8 && a.traffic_class
                    == 0)
                &&& (self.gidx < 0 ==> a.port_num == self.ib_port)
            },
            r matches Err(e) ==> e == RdmaError::InvalidTransition,
    {
        if self.state != QpState::Init {
            return Err(RdmaError::InvalidTransition);
        }
        match &self.remote {
            Some(d) => {
                let mut a = RtrAttrs {
                    path_mtu: self.path_mtu,
                    dest_qp_num: d.qp_num,
                    rq_psn: 0,
                    max_dest_rd_atomic: 1,
                    min_rnr_timer: 0x12,
                    is_global: false,
                    dlid: d.lid,
                    sl: 0,
                    src_path_bits: 0,
                    port_num: self.ib_port,
                    dgid: d.gid,
                    flow_label: 0,
                    hop_limit: 0,
                    sgid_index: 0,
                    traffic_class: 0,
                };
                if self.gidx >= 0 {
                    a.is_global = true;
                    a.port_num = 1;
                    a.flow_label = 0;
                    a.hop_limit = 1;
                    a.sgid_index = #[verifier::truncate] (self.gidx as u8);
                    a.traffic_class = 0;
                }
                Ok(a)
            },
            None => Err(RdmaError::InvalidTransition),
        }
    }

    /// Outcome of the INIT→RTR modify call. The step is refused before the
    /// peer's descriptor is known.
    pub fn commit_rtr(&mut self, rc: i32) -> (r: Result<(), RdmaError>)
        requires
            old(self).wf(),
        ensures
            final(self).wf(),
            only_state_changed(*old(self), *final(self)),
            final(self).state != old(self).state && final(self).state != QpState::Error
                ==> spec_advance(old(self).state, final(self).state),
            !(old(self).state == QpState::Init && old(self).remote is Some) ==> r == Err::<
                (),
                RdmaError,
            >(RdmaError::InvalidTransition) && final(self).state == old(self).state,
            (old(self).state == QpState::Init && old(self).remote is Some) && rc == 0 ==> r is Ok
                && final(self).state == QpState::Rtr,
            (old(self).state == QpState::Init && old(self).remote is Some) && rc != 0 ==> r
                == Err::<(), RdmaError>(RdmaError::QpModifyError(rc)) && final(self).state
                == QpState::Error,
    {
        if !(self.state == QpState::Init && self.remote.is_some()) {
            return Err(RdmaError::InvalidTransition);
        }
        if rc == 0 {
            self.state = QpState::Rtr;
            Ok(())
        } else {
            self.state = QpState::Error;
            Err(RdmaError::QpModifyError(rc))
        }
    }

    /// Driver values of the RTR→RTS step: local ACK timeout 0x12 in adapter
    /// units, retry count six, no RNR retries, send sequence number zero,
    /// one outstanding atomic. Available exactly in RTR.
    pub fn rts_attrs(&self) -> (r: Result<RtsAttrs, RdmaError>)
        ensures
            r is Ok <==> self.state == QpState::Rtr,
            r matches Ok(a) ==> a.timeout == 0x12 && a.retry_cnt == 6 && a.rnr_retry == 0
                && a.sq_psn == 0 && a.max_rd_atomic == 1,
            r matches Err(e) ==> e == RdmaError::InvalidTransition,
    {
        if self.state == QpState::Rtr {
            Ok(RtsAttrs { timeout: 0x12, retry_cnt: 6, rnr_retry: 0, sq_psn: 0, max_rd_atomic: 1 })
        } else {
            Err(RdmaError::InvalidTransition)
        }
    }

    /// Outcome of the RTR→RTS modify call.
    pub fn commit_rts(&mut self, rc: i32) -> (r: Result<(), RdmaError>)
        requires
            old(self).wf(),
        ensures
            final(self).wf(),
            only_state_changed(*old(self), *final(self)),
            final(self).state != old(self).state && final(self).state != QpState::Error
                ==> spec_advance(old(self).state, final(self).state),
            old(self).state != QpState::Rtr ==> r == Err::<(), RdmaError>(
                RdmaError::InvalidTransition,
            ) && final(self).state == old(self).state,
            old(self).state == QpState::Rtr && rc == 0 ==> r is Ok && final(self).state
                == QpState::Rts,
            old(self).state == QpState::Rtr && rc != 0 ==> r == Err::<(), RdmaError>(
                RdmaError::QpModifyError(rc),
            ) && final(self).state == QpState::Error,
    {
        if self.state != QpState::Rtr {
            return Err(RdmaError::InvalidTransition);
        }
        if rc == 0 {
            self.state = QpState::Rts;
            Ok(())
        } else {
            self.state = QpState::Error;
            Err(RdmaError::QpModifyError(rc))
        }
    }

    /// Build the send-side work request: a single scatter/gather entry over
    /// the whole buffer, always signaled. One-sided opcodes address the
    /// peer's buffer through the bootstrapped descriptor; a two-sided send
    /// carries no remote addressing. Data-plane requests exist only in RTS.
    pub fn send_wr(&self, opcode: Opcode) -> (r: Result<SendWr, RdmaError>)
        requires
            self.wf(),
        ensures
            r is Ok <==> self.state == QpState::Rts,
            r matches Ok(w) ==> w.opcode == opcode && w.length == self.capacity && w.signaled
                && w.wr_id == WR_ID_SEND && w.remote == (if opcode == Opcode::Send {
                None::<(u64, u32)>
            } else {
                Some((self.remote.unwrap().addr, self.remote.unwrap().rkey))
            }),
            r matches Err(e) ==> e == RdmaError::InvalidTransition,
    {
        if self.state != QpState::Rts {
            return Err(RdmaError::InvalidTransition);
        }
        match &self.remote {
            Some(d) => {
                let remote = if opcode == Opcode::Send {
                    None
                } else {
                    Some((d.addr, d.rkey))
                };
                Ok(
                    SendWr {
                        opcode,
                        length: self.capacity,
                        signaled: true,
                        wr_id: WR_ID_SEND,
                        remote,
                    },
                )
            },
            None => {
                proof {
                    assert(false);
                }
                Err(RdmaError::InvalidTransition)
            },
        }
    }

    /// Outcome of posting the send-side request: zero leaves exactly one new
    /// outstanding send-queue entry, anything else is a `PostError`.
    pub fn commit_post_send(&mut self, rc: i32) -> (r: Result<(), RdmaError>)
        requires
            old(self).wf(),
            !old(self).send_outstanding,
        ensures
            final(self).wf(),
            data_unchanged(*old(self), *final(self)),
            final(self).state == old(self).state,
            final(self).recv_outstanding == old(self).recv_outstanding,
            rc == 0 ==> r is Ok && final(self).send_outstanding,
            rc != 0 ==> r == Err::<(), RdmaError>(RdmaError::PostError(rc)) && !final(self).send_outstanding,
    {
        if rc == 0 {
            self.send_outstanding = true;
            Ok(())
        } else {
            Err(RdmaError::PostError(rc))
        }
    }

    /// Build one receive request covering the whole buffer. It must be
    /// posted before the peer's send arrives; data-plane requests exist only
    /// in RTS.
    pub fn recv_wr(&self) -> (r: Result<RecvWr, RdmaError>)
        requires
            self.wf(),
        ensures
            r is Ok <==> self.state == QpState::Rts,
            r matches Ok(w) ==> w.length == self.capacity && w.wr_id == WR_ID_RECV,
            r matches Err(e) ==> e == RdmaError::InvalidTransition,
    {
        if self.state != QpState::Rts {
            return Err(RdmaError::InvalidTransition);
        }
        Ok(RecvWr { length: self.capacity, wr_id: WR_ID_RECV })
    }

    /// Outcome of posting the receive request. Only one receive may be
    /// outstanding at a time.
    pub fn commit_post_receive(&mut self, rc: i32) -> (r: Result<(), RdmaError>)
        requires
            old(self).wf(),
            !old(self).recv_outstanding,
        ensures
            final(self).wf(),
            data_unchanged(*old(self), *final(self)),
            final(self).state == old(self).state,
            final(self).send_outstanding == old(self).send_outstanding,
            rc == 0 ==> r is Ok && final(self).recv_outstanding,
            rc != 0 ==> r == Err::<(), RdmaError>(RdmaError::PostError(rc)) && !final(self).recv_outstanding,
    {
        if rc == 0 {
            self.recv_outstanding = true;
            Ok(())
        } else {
            Err(RdmaError::PostError(rc))
        }
    }

    /// Decide the outcome of one completion. The caller busy-spins on the
    /// completion queue until the poll result is nonzero and hands it here
    /// with the completion's identifier, status and vendor syndrome. A
    /// negative poll result or a non-success status is a fatal
    /// `CompletionError`; the store and the buffer are never touched either
    /// way.
    pub fn poll_completion(&mut self, poll_result: i32, wr_id: u64, status: u32, vendor_err: u32)
        -> (r: Result<(), RdmaError>)
        requires
            old(self).wf(),
            poll_result != 0,
        ensures
            final(self).wf(),
            data_unchanged(*old(self), *final(self)),
            poll_result < 0 || status != WC_SUCCESS ==> r == Err::<(), RdmaError>(
                RdmaError::CompletionError { status, vendor_syndrome: vendor_err },
            ) && final(self).state == QpState::Error && final(self).send_outstanding == old(self).send_outstanding && final(self).recv_outstanding == old(self).recv_outstanding,
            poll_result > 0 && status == WC_SUCCESS ==> r is Ok && final(self).state == old(self).state && (if wr_id == WR_ID_RECV {
                !final(self).recv_outstanding && final(self).send_outstanding == old(self).send_outstanding
            } else {
                !final(self).send_outstanding && final(self).recv_outstanding == old(self).recv_outstanding
            }),
    {
        if poll_result < 0 || status != WC_SUCCESS {
            self.state = QpState::Error;
            return Err(RdmaError::CompletionError { status, vendor_syndrome: vendor_err });
        }
        if wr_id == WR_ID_RECV {
            self.recv_outstanding = false;
        } else {
            self.send_outstanding = false;
        }
        Ok(())
    }

    /// Replace the buffer content with the given bytes padded with zeros.
    /// Content longer than the capacity is refused with `EncodingError`,
    /// never truncated.
    pub fn set_bytes_to_buf(&mut self, new_bytes: &[u8]) -> (r: Result<(), RdmaError>)
        requires
            old(self).wf(),
        ensures
            final(self).wf(),
            only_buf_changed(*old(self), *final(self)),
            r is Ok <==> new_bytes@.len() <= old(self).capacity,
            r matches Ok(u) ==> final(self).buf@ == spec_pad(
                new_bytes@,
                old(self).capacity as nat,
            ),
            r is Err ==> final(self).buf == old(self).buf,
            r matches Err(e) ==> e == RdmaError::EncodingError,
    {
        let v = vstd::slice::slice_to_vec(new_bytes);
        match pad_to(v, self.capacity) {
            Ok(p) => {
                self.buf = p;
                Ok(())
            },
            Err(e) => Err(e),
        }
    }

    /// Decode the reply the peer delivered into the local buffer; anything
    /// that is not a reply message is an `EncodingError`.
    pub fn read_the_buf(&self) -> (r: Result<String, RdmaError>)
        ensures
            r matches Ok(s) ==> spec_decode_msg(self.buf@) == Some(
                MessageView::Reply { value: s@ },
            ),
            r is Err <==> !(spec_decode_msg(self.buf@) matches Some(MessageView::Reply { .. })),
            r matches Err(e) ==> e == RdmaError::EncodingError,
    {
        match decode_message(self.buf.as_slice()) {
            Ok(Message::Reply(s)) => Ok(s),
            Ok(_) => Err(RdmaError::EncodingError),
            Err(e) => Err(e),
        }
    }

    /// Stage one client operation: encode it zero-padded into the local
    /// buffer and build the one-sided write that pushes it into the server's
    /// buffer. The flag says whether a receive must be posted before the
    /// write, which is the case exactly for lookups, whose reply arrives by
    /// a peer send.
    pub fn prepare_request(&mut self, op: &KeyValueOpt) -> (r: Result<(SendWr, bool), RdmaError>)
        requires
            old(self).wf(),
        ensures
            final(self).wf(),
            only_buf_changed(*old(self), *final(self)),
            r is Ok <==> (old(self).state == QpState::Rts && spec_encode_msg(op@).len() <= old(self).capacity),
            r matches Ok(p) ==> final(self).buf@ == spec_pad(
                spec_encode_msg(op@),
                old(self).capacity as nat,
            ) && p.0.opcode == Opcode::RdmaWrite && p.0.length == old(self).capacity
                && p.0.signaled && p.0.wr_id == WR_ID_SEND && p.0.remote == Some(
                (old(self).remote.unwrap().addr, old(self).remote.unwrap().rkey),
            ) && (p.1 <==> op@ is Get),
            r is Err ==> final(self).buf == old(self).buf,
            old(self).state != QpState::Rts ==> r == Err::<(SendWr, bool), RdmaError>(
                RdmaError::InvalidTransition,
            ),
            old(self).state == QpState::Rts && spec_encode_msg(op@).len() > old(self).capacity
                ==> r == Err::<(SendWr, bool), RdmaError>(RdmaError::EncodingError),
    {
        let wr = match self.send_wr(Opcode::RdmaWrite) {
            Ok(wr) => wr,
            Err(e) => {
                return Err(e);
            },
        };
        let bytes = encode_op(op);
        match pad_to(bytes, self.capacity) {
            Ok(p) => {
                self.buf = p;
                let needs_receive = match op {
                    KeyValueOpt::Get { .. } => true,
                    _ => false,
                };
                Ok((wr, needs_receive))
            },
            Err(e) => Err(e),
        }
    }

    /// Serve the request now sitting in the buffer. An insert or a removal
    /// updates the store and leaves the buffer alone; a lookup leaves the
    /// store alone, stages the zero-padded reply in the buffer, and returns
    /// the send that must carry it to the peer. Bytes that decode to no
    /// client operation are refused with `EncodingError` and change nothing,
    /// so one malformed message does not corrupt the store. The caller
    /// drives this from a posted receive and a polled completion, so arrival
    /// is signaled by the adapter rather than inferred from buffer content.
    pub fn process_kv_opt(&mut self) -> (r: Result<Option<SendWr>, RdmaError>)
        requires
            old(self).wf(),
            old(self).state == QpState::Rts,
            old(self).kv_store is Some,
        ensures
            final(self).wf(),
            same_config(*old(self), *final(self)),
            final(self).state == old(self).state,
            final(self).remote == old(self).remote,
            final(self).send_outstanding == old(self).send_outstanding,
            final(self).recv_outstanding == old(self).recv_outstanding,
            final(self).kv_store is Some,
            r is Ok ==> final(self).kv_store.unwrap()@ == apply_op(
                old(self).kv_store.unwrap()@,
                spec_decode_msg(old(self).buf@).unwrap(),
            ),
            r matches Ok(a) ==> (match spec_decode_msg(old(self).buf@) {
                Some(MessageView::Put { key, value }) => final(self).kv_store.unwrap()@ == old(self).kv_store.unwrap()@.insert(key, value) && final(self).buf == old(self).buf
                    && a is None,
                Some(MessageView::Delete { key }) => final(self).kv_store.unwrap()@ == old(self).kv_store.unwrap()@.remove(key) && final(self).buf == old(self).buf
                    && a is None,
                Some(MessageView::Get { key }) => final(self).kv_store == old(self).kv_store
                    && final(self).buf@ == spec_pad(
                    spec_encode_msg(
                        MessageView::Reply {
                            value: spec_get_reply(old(self).kv_store.unwrap()@, key),
                        },
                    ),
                    old(self).capacity as nat,
                ) && (a matches Some(w) && w.opcode == Opcode::Send && w.length == old(self).capacity && w.signaled && w.wr_id == WR_ID_SEND && w.remote is None),
                _ => false,
            }),
            r is Ok <==> (match spec_decode_msg(old(self).buf@) {
                Some(MessageView::Put { key, value }) => true,
                Some(MessageView::Delete { key }) => true,
                Some(MessageView::Get { key }) => spec_encode_msg(
                    MessageView::Reply {
                        value: spec_get_reply(old(self).kv_store.unwrap()@, key),
                    },
                ).len() <= old(self).capacity,
                _ => false,
            }),
            r is Err ==> final(self).buf == old(self).buf && final(self).kv_store == old(self).kv_store,
            r matches Err(e) ==> e == RdmaError::EncodingError,
    {
        let msg = match decode_message(self.buf.as_slice()) {
            Ok(m) => m,
            Err(e) => {
                return Err(e);
            },
        };
        match msg {
            Message::Op(KeyValueOpt::Put { key, value }) => {
                match &mut self.kv_store {
                    Some(kv) => {
                        kv.set(key, value);
                    },
                    None => {
                        proof {
                            assert(false);
                        }
                    },
                }
                Ok(None)
            },
            Message::Op(KeyValueOpt::Delete { key }) => {
                match &mut self.kv_store {
                    Some(kv) => {
                        kv.delete(&key);
                    },
                    None => {
                        proof {
                            assert(false);
                        }
                    },
                }
                Ok(None)
            },
            Message::Op(KeyValueOpt::Get { key }) => {
                let reply = match &self.kv_store {
                    Some(kv) => kv.lookup_reply(&key),
                    None => {
                        proof {
                            assert(false);
                        }
                        return Err(RdmaError::EncodingError);
                    },
                };
                let bytes = encode_message(&Message::Reply(reply));
                match pad_to(bytes, self.capacity) {
                    Ok(p) => {
                        self.buf = p;
                        let wr = SendWr {
                            opcode: Opcode::Send,
                            length: self.capacity,
                            signaled: true,
                            wr_id: WR_ID_SEND,
                            remote: None,
                        };
                        Ok(Some(wr))
                    },
                    Err(e) => Err(e),
                }
            },
            Message::Reply(_) => Err(RdmaError::EncodingError),
        }
    }
}

/// Choose the adapter from the enumerated device names: the named one when a
/// name is configured — the first match — otherwise the first device found.
/// `DeviceNotFound` exactly when nothing matches.
pub fn select_device(names: &Vec<String>, wanted: &Option<String>) -> (r: Result<usize, RdmaError>)
    ensures
        match r {
            Ok(i) => i < names@.len() && (match wanted {
                Some(w) => names@[i as int]@ == w@ && (forall|j: int|
                    0 <= j < i ==> names@[j]@ != w@),
                None => i == 0,
            }),
            Err(e) => e == RdmaError::DeviceNotFound && (match wanted {
                Some(w) => forall|j: int| 0 <= j < names@.len() ==> names@[j]@ != w@,
                None => names@.len() == 0,
            }),
        },
{
    match wanted {
        None => {
            if names.len() > 0 {
                Ok(0)
            } else {
                Err(RdmaError::DeviceNotFound)
            }
        },
        Some(w) => {
            let n = names.len();
            let mut i: usize = 0;
            while i < n
                invariant
                    *wanted == Some(*w),
                    n == names@.len(),
                    i <= n,
                    forall|j: int| 0 <= j < i ==> names@[j]@ != w@,
                decreases n - i,
            {
                let name_i: &String = &names[i];
                if name_i.eq(w) {
                    return Ok(i);
                }
                i = i + 1;
            }
            Err(RdmaError::DeviceNotFound)
        },
    }
}

} // verus!
