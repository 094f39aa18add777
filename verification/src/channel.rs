//! Channels: bidirectional, two-endpoint message pipes carrying byte
//! payloads and bundles of handles, in strict FIFO order.

use vstd::prelude::*;
use crate::error::ZxError;
use crate::error::ZxResult;
use crate::object::Handle;
use crate::object::KoID;
use crate::object::Kernel;
use crate::object::ObjectBody;

verus! {

/// The message transferred through a channel: an opaque byte payload plus
/// the handles whose ownership travels with it.
#[derive(Debug)]
pub struct MessagePacket {
    /// The bytes carried by the message.
    pub data: Vec<u8>,
    /// The handles carried by the message.
    pub handles: Vec<Handle>,
}

impl MessagePacket {
    /// An empty message: no bytes, no handles.
    pub fn empty() -> (r: MessagePacket)
        ensures
            r.data@ == Seq::<u8>::empty(),
            r.handles@ == Seq::<Handle>::empty(),
    {
        MessagePacket { data: Vec::new(), handles: Vec::new() }
    }
}

/// The state of one channel endpoint.
pub struct ChannelData {
    /// The other endpoint of the pair.
    pub peer: KoID,
    /// Whether the last user reference to this endpoint is gone.
    pub closed: bool,
    /// Messages written by the peer, waiting to be read here, oldest first.
    pub recv_queue: Vec<MessagePacket>,
    /// The next transaction id this endpoint hands out.
    pub next_txid: u32,
}

impl Kernel {
    /// The state of channel endpoint `id`.
    pub open spec fn chan_data(self, id: KoID) -> ChannelData {
        match self.body_of(id) {
            ObjectBody::Channel(c) => c,
            _ => arbitrary(),
        }
    }

    /// The peer of channel endpoint `id`.
    pub open spec fn chan_peer(self, id: KoID) -> KoID {
        self.chan_data(id).peer
    }

    /// Whether the last user reference to endpoint `id` is gone.
    pub open spec fn chan_closed(self, id: KoID) -> bool {
        self.chan_data(id).closed
    }

    /// The receive queue of endpoint `id`, oldest message first.
    pub open spec fn chan_queue(self, id: KoID) -> Seq<MessagePacket> {
        self.chan_data(id).recv_queue@
    }
}


/// The first transaction id a fresh endpoint hands out.
pub const FIRST_TXID: u32 = 0x8000_0000;

impl MessagePacket {
    /// Set the transaction id: overwrite the first four payload bytes,
    /// little-endian, where the payload has at least four bytes; do
    /// nothing otherwise.
    pub fn set_txid(&mut self, txid: u32)
        ensures
            old(self).data@.len() >= 4 ==> final(self).data@ == old(self).data@.update(
                0,
                (txid & 0xff) as u8,
            ).update(1, ((txid >> 8u32) & 0xff) as u8).update(
                2,
                ((txid >> 16u32) & 0xff) as u8,
            ).update(3, ((txid >> 24u32) & 0xff) as u8),
            old(self).data@.len() < 4 ==> final(self).data@ == old(self).data@,
            final(self).handles@ == old(self).handles@,
    {
        if self.data.len() >= 4 {
            self.data.set(0, (txid & 0xff) as u8);
            self.data.set(1, ((txid >> 8u32) & 0xff) as u8);
            self.data.set(2, ((txid >> 16u32) & 0xff) as u8);
            self.data.set(3, ((txid >> 24u32) & 0xff) as u8);
        }
    }

    /// Read the transaction id from the first four payload bytes,
    /// little-endian, or 0 where the payload is shorter.
    pub fn get_txid(&self) -> (r: u32)
        ensures
            self.data@.len() >= 4 ==> r == (self.data@[0] as u32) | ((self.data@[1] as u32)
                << 8u32) | ((self.data@[2] as u32) << 16u32) | ((self.data@[3] as u32) << 24u32),
            self.data@.len() < 4 ==> r == 0u32,
    {
        if self.data.len() >= 4 {
            (self.data[0] as u32) | ((self.data[1] as u32) << 8u32) | ((self.data[2] as u32)
                << 16u32) | ((self.data[3] as u32) << 24u32)
        } else {
            0
        }
    }
}

/// A reference to one channel endpoint.
#[derive(Debug, Clone, Copy, PartialEq, Eq, Structural)]
pub struct Channel {
    /// The id of the endpoint this reference points at.
    pub koid: KoID,
}

impl Channel {
    /// The id this reference points at.
    pub open spec fn spec_id(self) -> KoID {
        self.koid
    }

    /// Whether this reference points at a channel endpoint of `k`.
    pub open spec fn valid(self, k: Kernel) -> bool {
        k.is_channel(self.koid)
    }

    /// Create a channel: two endpoints built together, each the other's
    /// peer, with empty receive queues.
    pub fn create(k: &mut Kernel) -> (r: (Channel, Channel))
        requires
            old(k).wf(),
            old(k).spec_next_koid() + 1 < KoID::MAX,
        ensures
            final(k).wf(),
            r.0.spec_id() == old(k).spec_next_koid(),
            r.1.spec_id() == old(k).spec_next_koid() + 1,
            final(k).spec_next_koid() == old(k).spec_next_koid() + 2,
            !old(k).has_obj(r.0.spec_id()),
            !old(k).has_obj(r.1.spec_id()),
            r.0.valid(*final(k)),
            r.1.valid(*final(k)),
            forall|oid: KoID| old(k).has_obj(oid) ==> #[trigger] final(k).has_obj(oid),
            forall|oid: KoID|
                #[trigger] final(k).has_obj(oid) ==> oid == r.0.spec_id() || oid == r.1.spec_id()
                    || old(k).has_obj(oid),
            forall|oid: KoID|
                old(k).has_obj(oid) ==> #[trigger] final(k).obj_of(oid) == old(k).obj_of(oid),
            final(k).chan_data(r.0.spec_id()) == (ChannelData {
                peer: r.1.spec_id(),
                closed: false,
                recv_queue: final(k).chan_data(r.0.spec_id()).recv_queue,
                next_txid: FIRST_TXID,
            }),
            final(k).chan_data(r.1.spec_id()) == (ChannelData {
                peer: r.0.spec_id(),
                closed: false,
                recv_queue: final(k).chan_data(r.1.spec_id()).recv_queue,
                next_txid: FIRST_TXID,
            }),
            final(k).chan_queue(r.0.spec_id()) == Seq::<MessagePacket>::empty(),
            final(k).chan_queue(r.1.spec_id()) == Seq::<MessagePacket>::empty(),
            final(k).name_of(r.0.spec_id()) == Seq::<char>::empty(),
            final(k).name_of(r.1.spec_id()) == Seq::<char>::empty(),
    {
        let ghost pre = *k;
        let id1_expected = k.next_koid + 1;
        let id0 = k.insert_object(
            ObjectBody::Channel(
                ChannelData {
                    peer: id1_expected,
                    closed: false,
                    recv_queue: Vec::new(),
                    next_txid: FIRST_TXID,
                },
            ),
            "",
        );
        let ghost mid = *k;
        let id1 = k.insert_object(
            ObjectBody::Channel(
                ChannelData {
                    peer: id0,
                    closed: false,
                    recv_queue: Vec::new(),
                    next_txid: FIRST_TXID,
                },
            ),
            "",
        );
        proof {
            reveal_strlit("");
            assert(id1 == id1_expected);
            assert forall|oid: KoID| pre.has_obj(oid) implies #[trigger] k.has_obj(oid) by {
                assert(mid.has_obj(oid));
            }
            assert forall|oid: KoID| #[trigger] k.has_obj(oid) implies oid == id0 || oid == id1
                || pre.has_obj(oid) by {
                if oid != id1 {
                    assert(mid.has_obj(oid));
                }
            }
            assert forall|oid: KoID|
                pre.has_obj(oid) implies #[trigger] k.obj_of(oid) == pre.obj_of(oid) by {
                assert(mid.has_obj(oid));
                assert(k.obj_of(oid) == mid.obj_of(oid));
                assert(mid.obj_of(oid) == pre.obj_of(oid));
            }
            assert(k.obj_of(id0) == mid.obj_of(id0));
            assert forall|oid: KoID|
                pre.has_obj(oid) && oid != id0 && oid != id1 implies #[trigger] k.body_of(oid)
                == pre.body_of(oid) by {
                assert(k.obj_of(oid) == pre.obj_of(oid));
            }
            assert forall|id: KoID| #[trigger] k.is_job(id) implies (k.job_parent(id)
                matches Some(q) ==> k.is_job(q) && q < id) by {
                assert(pre.has_obj(id));
                assert(pre.is_job(id));
                if pre.job_parent(id) is Some {
                    let q = pre.job_parent(id)->Some_0;
                    assert(pre.is_job(q));
                    assert(k.obj_of(q) == pre.obj_of(q));
                }
            }
            assert forall|id: KoID, i: int|
                #![trigger k.job_children(id)[i]]
                k.is_job(id) && 0 <= i < k.job_children(id).len() implies {
                let c = k.job_children(id)[i];
                k.is_job(c) && id < c
            } by {
                assert(pre.has_obj(id));
                assert(pre.is_job(id));
                let c = pre.job_children(id)[i];
                assert(pre.is_job(c));
                assert(k.obj_of(c) == pre.obj_of(c));
            }
            assert forall|id: KoID, i: int|
                #![trigger k.job_processes(id)[i]]
                k.is_job(id) && 0 <= i < k.job_processes(id).len() implies {
                let p = k.job_processes(id)[i];
                k.is_process(p) && id < p
            } by {
                assert(pre.has_obj(id));
                assert(pre.is_job(id));
                let p = pre.job_processes(id)[i];
                assert(pre.is_process(p));
                assert(k.obj_of(p) == pre.obj_of(p));
            }
            assert forall|id: KoID| #[trigger] k.is_process(id) implies k.is_job(k.proc_job(id))
                && k.proc_job(id) < id by {
                assert(pre.has_obj(id));
                assert(pre.is_process(id));
                assert(pre.is_job(pre.proc_job(id)));
                assert(k.obj_of(pre.proc_job(id)) == pre.obj_of(pre.proc_job(id)));
            }
            assert forall|id: KoID, i: int|
                #![trigger k.proc_threads(id)[i]]
                k.is_process(id) && 0 <= i < k.proc_threads(id).len() implies {
                let t = k.proc_threads(id)[i];
                k.is_thread(t) && id < t && k.thread_proc(t) == id
            } by {
                assert(pre.has_obj(id));
                assert(pre.is_process(id));
                let t = pre.proc_threads(id)[i];
                assert(pre.is_thread(t));
                assert(k.obj_of(t) == pre.obj_of(t));
            }
            assert forall|id: KoID| #[trigger] k.is_thread(id) implies k.is_process(
                k.thread_proc(id),
            ) && k.thread_proc(id) < id by {
                assert(pre.has_obj(id));
                assert(pre.is_thread(id));
                assert(pre.is_process(pre.thread_proc(id)));
                assert(k.obj_of(pre.thread_proc(id)) == pre.obj_of(pre.thread_proc(id)));
            }
            assert forall|id: KoID| #[trigger] k.is_channel(id) implies {
                let p = k.chan_peer(id);
                k.is_channel(p) && p != id && k.chan_peer(p) == id
            } by {
                if id == id0 || id == id1 {
                } else {
                    assert(pre.has_obj(id));
                    assert(pre.is_channel(id));
                    let p = pre.chan_peer(id);
                    assert(pre.is_channel(p));
                    assert(k.obj_of(p) == pre.obj_of(p));
                }
            }
            assert forall|id: KoID, i: int|
                #![trigger k.job_children(id)[i]]
                k.is_job(id) && k.job_killed(id) && 0 <= i < k.job_children(id).len()
                implies k.job_killed(k.job_children(id)[i]) by {
                assert(pre.has_obj(id));
                assert(pre.is_job(id));
                let c = pre.job_children(id)[i];
                assert(pre.job_killed(c));
                assert(pre.is_job(c));
                assert(k.obj_of(c) == pre.obj_of(c));
            }
            assert forall|id: KoID, i: int|
                #![trigger k.job_processes(id)[i]]
                k.is_job(id) && k.job_killed(id) && 0 <= i < k.job_processes(id).len()
                implies k.proc_exited(k.job_processes(id)[i]) by {
                assert(pre.has_obj(id));
                assert(pre.is_job(id));
                let p = pre.job_processes(id)[i];
                assert(pre.proc_exited(p));
                assert(pre.is_process(p));
                assert(k.obj_of(p) == pre.obj_of(p));
            }
        }
        (Channel { koid: id0 }, Channel { koid: id1 })
    }

    /// Read the oldest message from this endpoint's queue. Never blocks:
    /// an empty queue reports `SHOULD_WAIT` while the peer is alive and
    /// `PEER_CLOSED` once the peer is gone; queued messages still drain
    /// after the peer closes.
    pub fn read(&self, k: &mut Kernel) -> (r: ZxResult<MessagePacket>)
        requires
            old(k).wf(),
            self.valid(*old(k)),
        ensures
            final(k).wf(),
            ({
                let q = old(k).chan_queue(self.spec_id());
                if q.len() > 0 {
                    &&& r matches Ok(m) && m == q[0]
                    &&& Kernel::objects_frame(*old(k), *final(k), self.spec_id())
                    &&& final(k).chan_data(self.spec_id()) == (ChannelData {
                        recv_queue: final(k).chan_data(self.spec_id()).recv_queue,
                        ..old(k).chan_data(self.spec_id())
                    })
                    &&& final(k).chan_queue(self.spec_id()) == q.drop_first()
                    &&& final(k).obj_of(self.spec_id()).base == old(k).obj_of(self.spec_id()).base
                } else if old(k).chan_closed(old(k).chan_peer(self.spec_id())) {
                    r == Err::<MessagePacket, ZxError>(ZxError::PEER_CLOSED) && *final(k) == *old(
                        k,
                    )
                } else {
                    r == Err::<MessagePacket, ZxError>(ZxError::SHOULD_WAIT) && *final(k) == *old(
                        k,
                    )
                }
            }),
    {
        let i = k.index_of_obj(self.koid);
        proof {
            k.lemma_idx_of(self.koid);
            assert(k.body_of(self.spec_id()) == k.objs()[i as int].body);
        }
        let (has_msg, peer) = match &k.objects[i].body {
            ObjectBody::Channel(c) => (c.recv_queue.len() > 0, c.peer),
            _ => unreached(),
        };
        if has_msg {
            let ghost pre = *k;
            let e = &mut k.objects[i];
            match &mut e.body {
                ObjectBody::Channel(c) => {
                    let msg = c.recv_queue.remove(0);
                    proof {
                        Kernel::lemma_update_frame(pre, *k, self.koid);
                        assert(Kernel::local_change_ok(pre, *k, self.koid));
                        Kernel::lemma_local_change_preserves(pre, *k, self.koid);
                        assert(k.chan_queue(self.spec_id()) =~= pre.chan_queue(
                            self.spec_id(),
                        ).drop_first());
                    }
                    Ok(msg)
                },
                _ => unreached(),
            }
        } else {
            proof {
                assert(k.is_channel(peer));
            }
            let pi = k.index_of_obj(peer);
            proof {
                k.lemma_idx_of(peer);
                assert(k.body_of(peer) == k.objs()[pi as int].body);
            }
            let peer_closed = match &k.objects[pi].body {
                ObjectBody::Channel(c) => c.closed,
                _ => unreached(),
            };
            if peer_closed {
                Err(ZxError::PEER_CLOSED)
            } else {
                Err(ZxError::SHOULD_WAIT)
            }
        }
    }

    /// Write a message onto the peer's receive queue. Fails with
    /// `PEER_CLOSED` once the peer endpoint is gone.
    pub fn write(&self, k: &mut Kernel, msg: MessagePacket) -> (r: ZxResult)
        requires
            old(k).wf(),
            self.valid(*old(k)),
        ensures
            final(k).wf(),
            ({
                let peer = old(k).chan_peer(self.spec_id());
                if old(k).chan_closed(peer) {
                    r == Err::<(), ZxError>(ZxError::PEER_CLOSED) && *final(k) == *old(k)
                } else {
                    &&& r == Ok::<(), ZxError>(())
                    &&& Kernel::objects_frame(*old(k), *final(k), peer)
                    &&& final(k).chan_data(peer) == (ChannelData {
                        recv_queue: final(k).chan_data(peer).recv_queue,
                        ..old(k).chan_data(peer)
                    })
                    &&& final(k).chan_queue(peer) == old(k).chan_queue(peer).push(msg)
                    &&& final(k).obj_of(peer).base == old(k).obj_of(peer).base
                }
            }),
    {
        let i = k.index_of_obj(self.koid);
        proof {
            k.lemma_idx_of(self.koid);
            assert(k.body_of(self.spec_id()) == k.objs()[i as int].body);
        }
        let peer = match &k.objects[i].body {
            ObjectBody::Channel(c) => c.peer,
            _ => unreached(),
        };
        proof {
            assert(k.is_channel(peer));
        }
        let pi = k.index_of_obj(peer);
        proof {
            k.lemma_idx_of(peer);
            assert(k.body_of(peer) == k.objs()[pi as int].body);
        }
        let peer_closed = match &k.objects[pi].body {
            ObjectBody::Channel(c) => c.closed,
            _ => unreached(),
        };
        if peer_closed {
            return Err(ZxError::PEER_CLOSED);
        }
        let ghost pre = *k;
        let e = &mut k.objects[pi];
        match &mut e.body {
            ObjectBody::Channel(c) => c.recv_queue.push(msg),
            _ => {
                proof {
                    assert(false);
                }
            },
        }
        proof {
            Kernel::lemma_update_frame(pre, *k, peer);
            assert(Kernel::local_change_ok(pre, *k, peer));
            Kernel::lemma_local_change_preserves(pre, *k, peer);
        }
        Ok(())
    }

    /// Drop the last user reference to this endpoint: from now on the
    /// peer sees it as closed. Queued messages on the peer side remain
    /// readable.
    pub fn close(&self, k: &mut Kernel)
        requires
            old(k).wf(),
            self.valid(*old(k)),
        ensures
            final(k).wf(),
            Kernel::objects_frame(*old(k), *final(k), self.spec_id()),
            final(k).chan_data(self.spec_id()) == (ChannelData {
                closed: true,
                ..old(k).chan_data(self.spec_id())
            }),
            final(k).obj_of(self.spec_id()).base == old(k).obj_of(self.spec_id()).base,
    {
        let i = k.index_of_obj(self.koid);
        proof {
            k.lemma_idx_of(self.koid);
            assert(k.body_of(self.spec_id()) == k.objs()[i as int].body);
        }
        let ghost pre = *k;
        let e = &mut k.objects[i];
        match &mut e.body {
            ObjectBody::Channel(c) => c.closed = true,
            _ => {
                proof {
                    assert(false);
                }
            },
        }
        proof {
            Kernel::lemma_update_frame(pre, *k, self.koid);
            assert(Kernel::local_change_ok(pre, *k, self.koid));
            Kernel::lemma_local_change_preserves(pre, *k, self.koid);
        }
    }

    /// The peer endpoint, or `PEER_CLOSED` once the peer is gone.
    pub fn peer(&self, k: &Kernel) -> (r: ZxResult<Channel>)
        requires
            k.wf(),
            self.valid(*k),
        ensures
            r == if k.chan_closed(k.chan_peer(self.spec_id())) {
                Err::<Channel, ZxError>(ZxError::PEER_CLOSED)
            } else {
                Ok::<Channel, ZxError>(Channel { koid: k.chan_peer(self.spec_id()) })
            },
    {
        let i = k.index_of_obj(self.koid);
        proof {
            k.lemma_idx_of(self.koid);
            assert(k.body_of(self.spec_id()) == k.objs()[i as int].body);
        }
        let peer = match &k.objects[i].body {
            ObjectBody::Channel(c) => c.peer,
            _ => unreached(),
        };
        proof {
            assert(k.is_channel(peer));
        }
        let pi = k.index_of_obj(peer);
        proof {
            k.lemma_idx_of(peer);
            assert(k.body_of(peer) == k.objs()[pi as int].body);
        }
        let peer_closed = match &k.objects[pi].body {
            ObjectBody::Channel(c) => c.closed,
            _ => unreached(),
        };
        if peer_closed {
            Err(ZxError::PEER_CLOSED)
        } else {
            Ok(Channel { koid: peer })
        }
    }

    /// The peer's id, or 0 once the peer is gone.
    pub fn related_koid(&self, k: &Kernel) -> (r: KoID)
        requires
            k.wf(),
            self.valid(*k),
        ensures
            r == if k.chan_closed(k.chan_peer(self.spec_id())) {
                0u64
            } else {
                k.chan_peer(self.spec_id())
            },
    {
        match self.peer(k) {
            Ok(p) => p.id(),
            Err(_) => 0,
        }
    }

    /// The object's id.
    pub fn id(&self) -> (r: KoID)
        ensures
            r == self.spec_id(),
    {
        self.koid
    }

    /// The tag naming this object's kind.
    pub fn kind_name(&self) -> (r: &'static str)
        ensures
            r@ == "Channel"@,
    {
        "Channel"
    }

    /// The object's current name.
    pub fn name(&self, k: &Kernel) -> (r: String)
        requires
            k.wf(),
            self.valid(*k),
        ensures
            r@ == k.name_of(self.spec_id()),
    {
        k.object_name(self.koid)
    }

    /// Set the object's name; visible through any handle to it.
    pub fn set_name(&self, k: &mut Kernel, name: &str)
        requires
            old(k).wf(),
            self.valid(*old(k)),
        ensures
            final(k).wf(),
            Kernel::objects_frame(*old(k), *final(k), self.spec_id()),
            final(k).name_of(self.spec_id()) == name@,
            final(k).body_of(self.spec_id()) == old(k).body_of(self.spec_id()),
    {
        k.set_object_name(self.koid, name);
    }
}



/// The queue after `n` messages have been read from it.
pub open spec fn drained(q: Seq<MessagePacket>, n: int) -> Seq<MessagePacket>
    decreases n,
{
    if n <= 0 {
        q
    } else {
        drained(q, n - 1).drop_first()
    }
}

/// Messages come out in the order they went in: after `i` reads from a
/// queue, the next message read is the one that was written at position
/// `i`. Since a write appends to the peer's queue and a read takes the
/// queue's front, writing a batch of messages and then reading them back
/// returns them first-in first-out, payload and handles untouched.
pub proof fn lemma_channel_fifo(q: Seq<MessagePacket>, i: int)
    requires
        0 <= i < q.len(),
    ensures
        drained(q, i) == q.skip(i),
        drained(q, i).len() == q.len() - i,
        drained(q, i)[0] == q[i],
    decreases i,
{
    if i > 0 {
        lemma_channel_fifo(q, i - 1);
        assert(drained(q, i) == drained(q, i - 1).drop_first());
        assert(q.skip(i - 1).drop_first() =~= q.skip(i));
    } else {
        assert(q.skip(0) =~= q);
    }
}


} // verus!
