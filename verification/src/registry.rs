//! The server's client registry and its broadcast pass.
//!
//! The registry holds one outbound handle id per connected peer, in accept
//! order.  A broadcast pass targets every registered peer with the frame of
//! one message; peers whose write failed are evicted in the same pass.

use crate::codec;
use crate::codec::{frame_of, FrameError, FRAME_LEN};
use vstd::prelude::*;
use vstd::utf8::encode_utf8;

verus! {

/// One broadcast pass, ready to run: the frame to write and the peers to
/// write it to, in registry order.
pub struct BroadcastPlan {
    pub frame: Vec<u8>,
    pub targets: Vec<u64>,
}

/// The server's registry of live outbound handles, identified by the ids
/// it issued for them.
pub struct Registry {
    peers: Vec<u64>,
    next_id: u64,
}

/// The peers that remain registered after a broadcast pass with write
/// outcomes `ok`: those whose write succeeded, in their old order.
pub open spec fn surviving(peers: Seq<u64>, ok: Seq<bool>) -> Seq<u64>
    decreases peers.len(),
{
    if peers.len() == 0 || ok.len() == 0 {
        Seq::<u64>::empty()
    } else if ok[0] {
        seq![peers[0]] + surviving(peers.drop_first(), ok.drop_first())
    } else {
        surviving(peers.drop_first(), ok.drop_first())
    }
}

impl Registry {
    /// The ids of the registered peers, in accept order.
    pub closed spec fn peer_ids(self) -> Seq<u64> {
        self.peers@
    }

    /// How many ids the registry has issued so far.
    pub closed spec fn issued(self) -> u64 {
        self.next_id
    }

    /// Each registered peer appears once, under an id that was issued.
    pub closed spec fn wf(self) -> bool {
        &&& self.peers@.no_duplicates()
        &&& forall|i: int| 0 <= i < self.peers@.len() ==> self.peers@[i] < self.next_id
    }

    /// An empty registry.
    pub fn new() -> (r: Registry)
        ensures
            r.wf(),
            r.peer_ids() == Seq::<u64>::empty(),
            r.issued() == 0,
    {
        Registry { peers: Vec::new(), next_id: 0 }
    }

    /// How many peers are currently registered.
    pub fn peer_count(&self) -> (n: usize)
        ensures
            n == self.peer_ids().len(),
    {
        self.peers.len()
    }

    /// The id the next registered peer will receive.
    pub fn next_peer_id(&self) -> (n: u64)
        ensures
            n == self.issued(),
    {
        self.next_id
    }

    /// Registers a newly accepted peer and returns the fresh id issued for
    /// its outbound handle.
    pub fn register(&mut self) -> (id: u64)
        requires
            old(self).wf(),
            old(self).issued() < u64::MAX,
        ensures
            final(self).wf(),
            id == old(self).issued(),
            final(self).issued() == old(self).issued() + 1,
            final(self).peer_ids() == old(self).peer_ids().push(id),
    {
        let id = self.next_id;
        self.peers.push(id);
        self.next_id = self.next_id + 1;
        proof {
            let p = self.peers@;
            assert forall|i: int, j: int|
                0 <= i < p.len() && 0 <= j < p.len() && i != j implies p[i] != p[j] by {
                if i == p.len() - 1 {
                    assert(p[j] < id);
                } else if j == p.len() - 1 {
                    assert(p[i] < id);
                }
            }
        }
        id
    }

    /// Plans one broadcast pass for `msg`: the frame of `msg` and the
    /// currently registered peers as its targets, in registry order.  A
    /// message too long for one frame is rejected and nothing is written.
    pub fn broadcast_pass(&self, msg: &str) -> (r: Result<BroadcastPlan, FrameError>)
        ensures
            encode_utf8(msg@).len() <= FRAME_LEN ==> (r matches Ok(plan) && plan.frame@
                == frame_of(encode_utf8(msg@)) && plan.targets@ == self.peer_ids()),
            encode_utf8(msg@).len() > FRAME_LEN ==> (r matches Err(e) && e
                == FrameError::FrameTooLong),
    {
        match codec::encode(msg) {
            Ok(frame) => {
                let mut targets: Vec<u64> = Vec::new();
                let mut i: usize = 0;
                while i < self.peers.len()
                    invariant
                        i <= self.peers@.len(),
                        targets@ == self.peers@.take(i as int),
                    decreases self.peers@.len() - i,
                {
                    targets.push(self.peers[i]);
                    proof {
                        assert(self.peers@.take(i + 1) =~= self.peers@.take(i as int).push(
                            self.peers@[i as int],
                        ));
                    }
                    i = i + 1;
                }
                proof {
                    assert(targets@ =~= self.peers@);
                }
                Ok(BroadcastPlan { frame, targets })
            },
            Err(e) => Err(e),
        }
    }

    /// Applies a broadcast pass's write outcomes, one per target in
    /// registry order: peers whose write failed are evicted, the rest stay
    /// in order.
    pub fn apply_write_results(&mut self, results: &Vec<bool>)
        requires
            old(self).wf(),
            results@.len() == old(self).peer_ids().len(),
        ensures
            final(self).wf(),
            final(self).peer_ids() == surviving(old(self).peer_ids(), results@),
            final(self).issued() == old(self).issued(),
    {
        let ghost all_peers = self.peers@;
        let mut kept: Vec<u64> = Vec::new();
        let mut i: usize = 0;
        while i < self.peers.len()
            invariant
                i <= self.peers@.len(),
                self.peers@ == all_peers,
                results@.len() == self.peers@.len(),
                kept@ == surviving(self.peers@.take(i as int), results@.take(i as int)),
            decreases self.peers@.len() - i,
        {
            if results[i] {
                kept.push(self.peers[i]);
            }
            proof {
                assert(self.peers@.take(i + 1) =~= self.peers@.take(i as int).push(
                    self.peers@[i as int],
                ));
                assert(results@.take(i + 1) =~= results@.take(i as int).push(
                    results@[i as int],
                ));
                lemma_surviving_push(
                    self.peers@.take(i as int),
                    results@.take(i as int),
                    self.peers@[i as int],
                    results@[i as int],
                );
            }
            i = i + 1;
        }
        proof {
            assert(self.peers@.take(self.peers@.len() as int) =~= self.peers@);
            assert(results@.take(results@.len() as int) =~= results@);
            lemma_surviving_no_duplicates(self.peers@, results@);
            lemma_surviving_subset(self.peers@, results@);
        }
        self.peers = kept;
        proof {
            assert forall|i: int|
                0 <= i < self.peers@.len() implies self.peers@[i] < self.next_id by {
                assert(self.peers@.contains(self.peers@[i]));
                assert(all_peers.contains(self.peers@[i]));
            }
        }
    }
}

/// Keeping or dropping the last peer commutes with filtering the rest:
/// this lets a forward pass over the registry compute `surviving`.
pub proof fn lemma_surviving_push(peers: Seq<u64>, ok: Seq<bool>, x: u64, b: bool)
    requires
        peers.len() == ok.len(),
    ensures
        surviving(peers.push(x), ok.push(b)) == if b {
            surviving(peers, ok).push(x)
        } else {
            surviving(peers, ok)
        },
    decreases peers.len(),
{
    if peers.len() == 0 {
        assert(peers.push(x).drop_first() =~= Seq::<u64>::empty());
        assert(ok.push(b).drop_first() =~= Seq::<bool>::empty());
        assert(surviving(Seq::<u64>::empty(), Seq::<bool>::empty()) == Seq::<u64>::empty());
        if b {
            assert(surviving(peers.push(x), ok.push(b)) =~= surviving(peers, ok).push(x));
        } else {
            assert(surviving(peers.push(x), ok.push(b)) =~= surviving(peers, ok));
        }
    } else {
        assert(peers.push(x).drop_first() =~= peers.drop_first().push(x));
        assert(ok.push(b).drop_first() =~= ok.drop_first().push(b));
        lemma_surviving_push(peers.drop_first(), ok.drop_first(), x, b);
        if b {
            assert(surviving(peers.push(x), ok.push(b)) =~= surviving(peers, ok).push(x));
        } else {
            assert(surviving(peers.push(x), ok.push(b)) =~= surviving(peers, ok));
        }
    }
}

/// Every peer that survives a pass was registered before it.
pub proof fn lemma_surviving_subset(peers: Seq<u64>, ok: Seq<bool>)
    requires
        peers.len() == ok.len(),
    ensures
        forall|id: u64| #[trigger] surviving(peers, ok).contains(id) ==> peers.contains(id),
    decreases peers.len(),
{
    if peers.len() == 0 {
    } else {
        lemma_surviving_subset(peers.drop_first(), ok.drop_first());
        let s = surviving(peers, ok);
        assert forall|id: u64| #[trigger] s.contains(id) implies peers.contains(id) by {
            let j = choose|j: int| 0 <= j < s.len() && s[j] == id;
            if ok[0] && j == 0 {
                assert(peers[0] == id);
            } else {
                let rest = surviving(peers.drop_first(), ok.drop_first());
                if ok[0] {
                    assert(rest[j - 1] == id);
                } else {
                    assert(rest[j] == id);
                }
                assert(rest.contains(id));
                assert(peers.drop_first().contains(id));
                let k = choose|k: int|
                    0 <= k < peers.drop_first().len() && peers.drop_first()[k] == id;
                assert(peers[k + 1] == id);
            }
        }
    }
}

/// A pass never duplicates a registry entry.
pub proof fn lemma_surviving_no_duplicates(peers: Seq<u64>, ok: Seq<bool>)
    requires
        peers.len() == ok.len(),
        peers.no_duplicates(),
    ensures
        surviving(peers, ok).no_duplicates(),
    decreases peers.len(),
{
    if peers.len() == 0 {
    } else {
        assert(peers.drop_first().no_duplicates());
        lemma_surviving_no_duplicates(peers.drop_first(), ok.drop_first());
        lemma_surviving_subset(peers.drop_first(), ok.drop_first());
        let rest = surviving(peers.drop_first(), ok.drop_first());
        if ok[0] {
            let s = seq![peers[0]] + rest;
            assert forall|i: int, j: int|
                0 <= i < s.len() && 0 <= j < s.len() && i != j implies s[i] != s[j] by {
                if i == 0 || j == 0 {
                    let n = if i == 0 {
                        j
                    } else {
                        i
                    };
                    assert(s[n] == rest[n - 1]);
                    assert(rest.contains(rest[n - 1]));
                    assert(peers.drop_first().contains(rest[n - 1]));
                    let k = choose|k: int|
                        0 <= k < peers.drop_first().len() && peers.drop_first()[k] == rest[n - 1];
                    assert(peers[k + 1] == rest[n - 1]);
                    assert(peers[0] != peers[k + 1]);
                } else {
                    assert(s[i] == rest[i - 1] && s[j] == rest[j - 1]);
                }
            }
        }
    }
}

/// Peer eviction: a registered peer whose write failed in a pass is no
/// longer registered after it, so the following pass does not target it.
pub proof fn lemma_peer_eviction(peers: Seq<u64>, ok: Seq<bool>, i: int)
    requires
        peers.len() == ok.len(),
        peers.no_duplicates(),
        0 <= i < peers.len(),
        !ok[i],
    ensures
        !surviving(peers, ok).contains(peers[i]),
    decreases peers.len(),
{
    lemma_surviving_subset(peers.drop_first(), ok.drop_first());
    let rest = surviving(peers.drop_first(), ok.drop_first());
    if i == 0 {
        if rest.contains(peers[0]) {
            assert(peers.drop_first().contains(peers[0]));
            let k = choose|k: int|
                0 <= k < peers.drop_first().len() && peers.drop_first()[k] == peers[0];
            assert(peers[k + 1] == peers[0]);
        }
        assert(!rest.contains(peers[0]));
    } else {
        assert(peers.drop_first().no_duplicates());
        assert(peers.drop_first()[i - 1] == peers[i]);
        lemma_peer_eviction(peers.drop_first(), ok.drop_first(), i - 1);
        let s = surviving(peers, ok);
        if s.contains(peers[i]) {
            let j = choose|j: int| 0 <= j < s.len() && s[j] == peers[i];
            if ok[0] {
                if j == 0 {
                    assert(peers[0] == peers[i]);
                } else {
                    assert(rest[j - 1] == peers[i]);
                    assert(rest.contains(peers[i]));
                }
            } else {
                assert(rest[j] == peers[i]);
                assert(rest.contains(peers[i]));
            }
        }
    }
}

/// Broadcast coverage: in a pass over a duplicate-free registry, every
/// registered peer is targeted exactly once, and the frame written to it
/// decodes back to the message broadcast, provided the message's UTF-8
/// bytes leave room for the zero terminator and hold no zero byte.
pub proof fn lemma_broadcast_coverage(peers: Seq<u64>, msg: Seq<char>, i: int)
    requires
        peers.no_duplicates(),
        0 <= i < peers.len(),
        encode_utf8(msg).len() < FRAME_LEN,
        forall|k: int| 0 <= k < encode_utf8(msg).len() ==> encode_utf8(msg)[k] != 0,
    ensures
        peers.to_multiset().count(peers[i]) == 1,
        vstd::utf8::valid_utf8(codec::payload_of(frame_of(encode_utf8(msg)))),
        vstd::utf8::decode_utf8(codec::payload_of(frame_of(encode_utf8(msg)))) == msg,
{
    broadcast use vstd::seq_lib::group_to_multiset_ensures;

    assert(peers.contains(peers[i]));
    peers.lemma_multiset_has_no_duplicates();
    codec::lemma_frame_round_trip(msg);
}

/// Sender echo: a broadcast pass targets every registered peer, so the
/// sender of a message, being itself registered, is written the frame of
/// its own message.
pub proof fn lemma_sender_echo(peers: Seq<u64>, sender: u64)
    requires
        peers.contains(sender),
    ensures
        peers.to_multiset().count(sender) >= 1,
{
    broadcast use vstd::seq_lib::group_to_multiset_ensures;

}

/// A registered peer whose write succeeded in a pass is still registered
/// after it.
pub proof fn lemma_peer_retention(peers: Seq<u64>, ok: Seq<bool>, i: int)
    requires
        peers.len() == ok.len(),
        0 <= i < peers.len(),
        ok[i],
    ensures
        surviving(peers, ok).contains(peers[i]),
    decreases peers.len(),
{
    let rest = surviving(peers.drop_first(), ok.drop_first());
    let s = surviving(peers, ok);
    if i == 0 {
        assert(s[0] == peers[0]);
    } else {
        lemma_peer_retention(peers.drop_first(), ok.drop_first(), i - 1);
        let j = choose|j: int| 0 <= j < rest.len() && rest[j] == peers.drop_first()[i - 1];
        if ok[0] {
            assert(s[j + 1] == peers[i]);
        } else {
            assert(s[j] == peers[i]);
        }
    }
}

} // verus!
