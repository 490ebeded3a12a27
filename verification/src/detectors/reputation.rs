//! Rate limiting by source address, and a deny list.
use std::collections::HashMap;
use vstd::prelude::*;
use vstd::std_specs::hash::*;

use crate::clock::{Clock, SystemClock};
use crate::config::DEFAULT_MAX_TRACKED_IPS;
use crate::detectors;
use crate::detectors::{Detector, Group, Severity, Verdict, VerdictView};
use crate::ip::IpAddr;
use crate::request::{Request, RequestModel};
use crate::text::join3;

verus! {

broadcast use group_hash_axioms;

// ---------------------------------------------------------------------------
// From address to slot
// ---------------------------------------------------------------------------
/// A map from addresses to slots, one table for each address family.
struct IpIndex {
    v4: HashMap<u32, usize>,
    v6: HashMap<u128, usize>,
}

impl View for IpIndex {
    type V = Map<IpAddr, usize>;

    closed spec fn view(&self) -> Map<IpAddr, usize> {
        Map::new(
            |ip: IpAddr|
                match ip {
                    IpAddr::V4(a) => self.v4@.contains_key(a),
                    IpAddr::V6(a) => self.v6@.contains_key(a),
                },
            |ip: IpAddr|
                match ip {
                    IpAddr::V4(a) => self.v4@[a],
                    IpAddr::V6(a) => self.v6@[a],
                },
        )
    }
}

impl IpIndex {
    fn new() -> (r: IpIndex)
        ensures
            r@ == Map::<IpAddr, usize>::empty(),
    {
        let r = IpIndex { v4: HashMap::new(), v6: HashMap::new() };
        assert(r@ =~= Map::<IpAddr, usize>::empty());
        r
    }

    fn get(&self, ip: IpAddr) -> (r: Option<usize>)
        ensures
            match r {
                Some(s) => self@.contains_key(ip) && self@[ip] == s,
                None => !self@.contains_key(ip),
            },
    {
        let found = match ip {
            IpAddr::V4(a) => self.v4.get(&a),
            IpAddr::V6(a) => self.v6.get(&a),
        };
        match found {
            Some(s) => Some(*s),
            None => None,
        }
    }

    fn insert(&mut self, ip: IpAddr, slot: usize)
        ensures
            final(self)@ == old(self)@.insert(ip, slot),
    {
        match ip {
            IpAddr::V4(a) => {
                self.v4.insert(a, slot);
            },
            IpAddr::V6(a) => {
                self.v6.insert(a, slot);
            },
        }
        assert(self@ =~= old(self)@.insert(ip, slot));
    }

    fn remove(&mut self, ip: IpAddr)
        ensures
            final(self)@ == old(self)@.remove(ip),
    {
        match ip {
            IpAddr::V4(a) => {
                self.v4.remove(&a);
            },
            IpAddr::V6(a) => {
                self.v6.remove(&a);
            },
        }
        assert(self@ =~= old(self)@.remove(ip));
    }
}

// ---------------------------------------------------------------------------
// Token buckets
// ---------------------------------------------------------------------------
/// One token, in the unit in which buckets are filled. A bucket of `quota`
/// tokens per second gains `quota` units per nanosecond.
pub const TOKEN: u64 = 1_000_000_000;

/// The bucket of one address.
pub struct Bucket {
    pub ip: IpAddr,
    /// What is in it.
    pub tokens: nat,
    /// When it was last filled.
    pub last_refill: nat,
}

/// What a full bucket holds.
pub open spec fn full(quota: nat) -> nat {
    quota * TOKEN as nat
}

/// What is in a bucket some time later: it never holds more than when full.
pub open spec fn refilled(tokens: nat, elapsed: nat, quota: nat) -> nat {
    if tokens + elapsed * quota > full(quota) {
        full(quota)
    } else {
        tokens + elapsed * quota
    }
}

/// The time from `since` to `now`, or none where the clock went back.
pub open spec fn elapsed(now: nat, since: nat) -> nat {
    if now >= since {
        (now - since) as nat
    } else {
        0
    }
}

/// A request is allowed where a whole token is there.
pub open spec fn has_token(tokens: nat) -> bool {
    tokens >= TOKEN
}

/// What is left when a token is taken, if there is one.
pub open spec fn consumed(tokens: nat) -> nat {
    if has_token(tokens) {
        (tokens - TOKEN) as nat
    } else {
        tokens
    }
}

/// The place of an address among the buckets.
pub open spec fn position(buckets: Seq<Bucket>, ip: IpAddr) -> Option<int>
    decreases buckets.len(),
{
    if buckets.len() == 0 {
        None
    } else if buckets.last().ip == ip {
        Some(buckets.len() - 1)
    } else {
        position(buckets.drop_last(), ip)
    }
}

/// What is in the bucket of `ip` when a request comes at `now`: a known bucket
/// is refilled, a new one is full.
pub open spec fn tokens_at(buckets: Seq<Bucket>, quota: nat, ip: IpAddr, now: nat) -> nat {
    match position(buckets, ip) {
        Some(k) => refilled(buckets[k].tokens, elapsed(now, buckets[k].last_refill), quota),
        None => full(quota),
    }
}

/// The other buckets that stay when a request comes from `ip`: all of them, but
/// for the least recently seen where a new bucket needs its place.
pub open spec fn others(buckets: Seq<Bucket>, cap: nat, ip: IpAddr) -> Seq<Bucket> {
    match position(buckets, ip) {
        Some(k) => buckets.remove(k),
        None => if buckets.len() >= cap {
            buckets.drop_last()
        } else {
            buckets
        },
    }
}

/// The buckets after a request from `ip` at `now`, most recently seen first.
pub open spec fn after_request(
    buckets: Seq<Bucket>,
    cap: nat,
    quota: nat,
    ip: IpAddr,
    now: nat,
) -> Seq<Bucket> {
    seq![
        Bucket {
            ip,
            tokens: consumed(tokens_at(buckets, quota, ip, now)),
            last_refill: now,
        },
    ] + others(buckets, cap, ip)
}

/// The link value that means that there is no node.
const NIL: usize = usize::MAX;

/// One slot: a bucket, and its neighbours in the order of recency.
#[derive(Clone, Copy)]
struct Node {
    ip: IpAddr,
    tokens: u64,
    last_refill: u64,
    prev: usize,
    next: usize,
}

/// The bucket in a slot.
spec fn bucket_of(n: Node) -> Bucket {
    Bucket { ip: n.ip, tokens: n.tokens as nat, last_refill: n.last_refill as nat }
}

/// Two nodes hold the same bucket.
spec fn same_bucket(a: Node, b: Node) -> bool {
    a.ip == b.ip && a.tokens == b.tokens && a.last_refill == b.last_refill
}

/// The slot before place `i`, or none.
spec fn slot_before(order: Seq<int>, i: int) -> int {
    if i <= 0 {
        NIL as int
    } else {
        order[i - 1]
    }
}

/// The slot behind place `i`, or none.
spec fn slot_behind(order: Seq<int>, i: int) -> int {
    if i >= order.len() - 1 {
        NIL as int
    } else {
        order[i + 1]
    }
}

/// The slot at place `i` is linked to its neighbours.
spec fn linked_at(slab: Seq<Node>, order: Seq<int>, i: int) -> bool {
    slab[order[i]].prev == slot_before(order, i) && slab[order[i]].next == slot_behind(order, i)
}

/// The links of the slots thread `order`, front to back.
spec fn threads(slab: Seq<Node>, order: Seq<int>, head: usize, tail: usize) -> bool {
    &&& head == slot_behind(order, -1)
    &&& tail == slot_before(order, order.len() as int)
    &&& forall|i: int| 0 <= i < order.len() ==> 0 <= #[trigger] order[i] < slab.len()
    &&& forall|i: int| 0 <= i < order.len() ==> #[trigger] linked_at(slab, order, i)
    &&& order.no_duplicates()
}

/// Token buckets for at most `cap` addresses. Every operation takes constant
/// time: the buckets stand in slots that doubly linked lists thread in the order
/// of recency, and a map leads from an address to its slot.
pub struct LruTokenBuckets<C: Clock> {
    index: IpIndex,
    slab: Vec<Node>,
    head: usize,
    tail: usize,
    cap: usize,
    quota_per_sec: u32,
    clock: C,
    order: Ghost<Seq<int>>,
}

impl<C: Clock> LruTokenBuckets<C> {
    /// The buckets, most recently seen first.
    pub closed spec fn buckets(&self) -> Seq<Bucket> {
        self.order@.map_values(|s: int| bucket_of(self.slab@[s]))
    }

    /// The number of addresses tracked at once.
    pub closed spec fn capacity(&self) -> nat {
        self.cap as nat
    }

    /// The requests per second allowed from one address.
    pub closed spec fn quota(&self) -> nat {
        self.quota_per_sec as nat
    }

    /// The invariant.
    pub closed spec fn wf(&self) -> bool {
        &&& self.cap >= 1
        &&& self.quota_per_sec >= 1
        &&& self.slab@.len() <= self.cap
        &&& self.order@.len() == self.slab@.len()
        &&& threads(self.slab@, self.order@, self.head, self.tail)
        &&& self.indexed(self.order@)
        &&& self.filled()
    }

    /// No bucket holds more than when full.
    spec fn filled(&self) -> bool {
        forall|s: int|
            0 <= s < self.slab@.len() ==> (#[trigger] self.slab@[s]).tokens <= full(
                self.quota_per_sec as nat,
            )
    }

    /// The index leads from the addresses of the slots in `order`, and from no
    /// other, to their slots.
    spec fn indexed(&self, order: Seq<int>) -> bool {
        &&& forall|i: int|
            0 <= i < order.len() ==> self.index@.contains_key(
                self.slab@[#[trigger] order[i]].ip,
            ) && self.index@[self.slab@[order[i]].ip] == order[i]
        &&& forall|ip: IpAddr| #[trigger]
            self.index@.contains_key(ip) ==> self.slab@[self.index@[ip] as int].ip == ip
                && order.contains(self.index@[ip] as int)
    }

    /// Unlinks the slot at place `k`.
    fn unlink(&mut self, slot: usize, Ghost(k): Ghost<int>)
        requires
            threads(old(self).slab@, old(self).order@, old(self).head, old(self).tail),
            0 <= k < old(self).order@.len(),
            old(self).order@[k] == slot,
        ensures
            threads(final(self).slab@, final(self).order@, final(self).head, final(self).tail),
            final(self).order@ == old(self).order@.remove(k),
            !final(self).order@.contains(slot as int),
            final(self).slab@.len() == old(self).slab@.len(),
            forall|s: int|
                0 <= s < old(self).slab@.len() ==> same_bucket(
                    #[trigger] final(self).slab@[s],
                    old(self).slab@[s],
                ),
            final(self).index == old(self).index,
            final(self).cap == old(self).cap,
            final(self).quota_per_sec == old(self).quota_per_sec,
            final(self).clock == old(self).clock,
    {
        let ghost order = self.order@;
        let ghost slab = self.slab@;
        let ghost n = order.len() as int;
        let slots: usize = self.slab.len();
        assert(slab.len() == slots);
        assert(0 <= order[k] < slab.len());
        assert(linked_at(slab, order, k));
        let prev = self.slab[slot].prev;
        let next = self.slab[slot].next;
        if prev != NIL {
            assert(k > 0 && prev == order[k - 1]);
            let mut p = self.slab[prev];
            p.next = next;
            self.slab.set(prev, p);
        } else {
            assert(k == 0) by {
                if k > 0 {
                    assert(0 <= order[k - 1] < slab.len());
                }
            }
            self.head = next;
        }
        if next != NIL {
            assert(k < n - 1 && next == order[k + 1]);
            let mut q = self.slab[next];
            q.prev = prev;
            self.slab.set(next, q);
        } else {
            assert(k == n - 1) by {
                if k < n - 1 {
                    assert(0 <= order[k + 1] < slab.len());
                }
            }
            self.tail = prev;
        }
        proof {
            let rest = order.remove(k);
            self.order@ = rest;
            assert forall|i: int| 0 <= i < rest.len() implies #[trigger] linked_at(
                self.slab@,
                rest,
                i,
            ) by {
                let j = if i < k {
                    i
                } else {
                    i + 1
                };
                assert(rest[i] == order[j]);
                assert(linked_at(slab, order, j));
                assert(order[j] != order[k]);
                if k > 0 {
                    assert(j != k - 1 ==> order[j] != order[k - 1]);
                }
                if k < n - 1 {
                    assert(j != k + 1 ==> order[j] != order[k + 1]);
                }
            }
            if rest.contains(slot as int) {
                let i = rest.index_of(slot as int);
                assert(rest[i] == slot);
                if i < k {
                    assert(order[i] == order[k]);
                } else {
                    assert(order[i + 1] == order[k]);
                }
            }
        }
    }

    /// Puts a slot that is not linked at the front.
    fn push_front(&mut self, slot: usize)
        requires
            threads(old(self).slab@, old(self).order@, old(self).head, old(self).tail),
            slot < old(self).slab@.len(),
            !old(self).order@.contains(slot as int),
        ensures
            threads(final(self).slab@, final(self).order@, final(self).head, final(self).tail),
            final(self).order@ == seq![slot as int] + old(self).order@,
            final(self).slab@.len() == old(self).slab@.len(),
            forall|s: int|
                0 <= s < old(self).slab@.len() ==> same_bucket(
                    #[trigger] final(self).slab@[s],
                    old(self).slab@[s],
                ),
            final(self).index == old(self).index,
            final(self).cap == old(self).cap,
            final(self).quota_per_sec == old(self).quota_per_sec,
            final(self).clock == old(self).clock,
    {
        let ghost order = self.order@;
        let ghost slab = self.slab@;
        let slots: usize = self.slab.len();
        assert(slab.len() == slots);
        let old_head = self.head;
        let mut n = self.slab[slot];
        n.prev = NIL;
        n.next = old_head;
        self.slab.set(slot, n);
        assert forall|i: int| 0 <= i < order.len() implies order[i] != slot by {
            assert(order.contains(order[i]));
        }
        if old_head != NIL {
            assert(order.len() > 0 && old_head == order[0]);
            let mut h = self.slab[old_head];
            h.prev = slot;
            self.slab.set(old_head, h);
        } else {
            assert(order.len() == 0) by {
                if order.len() > 0 {
                    assert(0 <= order[0] < slab.len());
                }
            }
        }
        self.head = slot;
        if self.tail == NIL {
            assert(order.len() == 0) by {
                if order.len() > 0 {
                    assert(0 <= order[order.len() - 1] < slab.len());
                }
            }
            self.tail = slot;
        }
        proof {
            let whole = seq![slot as int] + order;
            self.order@ = whole;
            assert forall|i: int| 0 <= i < whole.len() implies #[trigger] linked_at(
                self.slab@,
                whole,
                i,
            ) by {
                if i > 0 {
                    assert(whole[i] == order[i - 1]);
                    assert(linked_at(slab, order, i - 1));
                    assert(i > 1 ==> order[i - 1] != order[0]);
                }
            }
        }
    }

    /// Moves a linked slot to the front.
    fn touch(&mut self, slot: usize, Ghost(k): Ghost<int>)
        requires
            old(self).wf(),
            0 <= k < old(self).order@.len(),
            old(self).order@[k] == slot,
        ensures
            final(self).wf(),
            final(self).order@ == seq![slot as int] + old(self).order@.remove(k),
            final(self).slab@.len() == old(self).slab@.len(),
            forall|s: int|
                0 <= s < old(self).slab@.len() ==> same_bucket(
                    #[trigger] final(self).slab@[s],
                    old(self).slab@[s],
                ),
            final(self).index == old(self).index,
            final(self).cap == old(self).cap,
            final(self).quota_per_sec == old(self).quota_per_sec,
            final(self).clock == old(self).clock,
    {
        let ghost order = self.order@;
        assert(0 <= order[k] < self.slab@.len());
        if self.head == slot {
            assert(k == 0) by {
                assert(order[0] == order[k]);
            }
            assert(seq![slot as int] + order.remove(0) =~= order);
            return;
        }
        self.unlink(slot, Ghost(k));
        self.push_front(slot);
        proof {
            let rest = order.remove(k);
            let moved = seq![slot as int] + rest;
            assert forall|i: int| 0 <= i < moved.len() implies order.contains(
                #[trigger] moved[i],
            ) by {
                if i == 0 {
                    assert(moved[0] == order[k]);
                } else if i - 1 < k {
                    assert(moved[i] == order[i - 1]);
                } else {
                    assert(moved[i] == order[i]);
                }
            }
            assert forall|x: int| order.contains(x) implies moved.contains(x) by {
                let j = order.index_of(x);
                assert(order[j] == x);
                if j == k {
                    assert(moved[0] == x);
                } else if j < k {
                    assert(moved[j + 1] == x);
                } else {
                    assert(moved[j] == x);
                }
            }
            assert(self.indexed(moved)) by {
                assert forall|i: int| 0 <= i < moved.len() implies self.index@.contains_key(
                    self.slab@[#[trigger] moved[i]].ip,
                ) && self.index@[self.slab@[moved[i]].ip] == moved[i] by {
                    let j = order.index_of(moved[i]);
                    assert(order[j] == moved[i]);
                    assert(same_bucket(self.slab@[moved[i]], old(self).slab@[moved[i]]));
                }
                assert forall|ip: IpAddr| #[trigger] self.index@.contains_key(
                    ip,
                ) implies self.slab@[self.index@[ip] as int].ip == ip && moved.contains(
                    self.index@[ip] as int,
                ) by {
                    let x = self.index@[ip] as int;
                    let j = order.index_of(x);
                    assert(0 <= order[j] < old(self).slab@.len());
                    assert(same_bucket(self.slab@[x], old(self).slab@[x]));
                }
            }
            assert forall|s: int| 0 <= s < self.slab@.len() implies (
            #[trigger] self.slab@[s]).tokens <= full(self.quota_per_sec as nat) by {
                assert(same_bucket(self.slab@[s], old(self).slab@[s]));
            }
        }
    }

    /// Unlinks the least recently seen slot and forgets its address. The slot is
    /// returned for reuse.
    fn evict_tail(&mut self) -> (victim: usize)
        requires
            old(self).wf(),
            old(self).order@.len() > 0,
        ensures
            victim == old(self).order@.last(),
            victim < final(self).slab@.len(),
            final(self).order@ == old(self).order@.drop_last(),
            !final(self).order@.contains(victim as int),
            threads(final(self).slab@, final(self).order@, final(self).head, final(self).tail),
            final(self).indexed(final(self).order@),
            final(self).index@ == old(self).index@.remove(old(self).slab@[victim as int].ip),
            final(self).slab@.len() == old(self).slab@.len(),
            forall|s: int|
                0 <= s < old(self).slab@.len() ==> same_bucket(
                    #[trigger] final(self).slab@[s],
                    old(self).slab@[s],
                ),
            final(self).cap == old(self).cap,
            final(self).quota_per_sec == old(self).quota_per_sec,
            final(self).clock == old(self).clock,
    {
        let ghost order = self.order@;
        let ghost k = order.len() - 1;
        let victim = self.tail;
        assert(victim == order[k]);
        assert(0 <= order[k] < self.slab@.len());
        let ip = self.slab[victim].ip;
        self.unlink(victim, Ghost(k));
        self.index.remove(ip);
        proof {
            let rest = order.drop_last();
            assert(order.remove(k) =~= rest);
            assert forall|i: int| 0 <= i < rest.len() implies self.index@.contains_key(
                self.slab@[#[trigger] rest[i]].ip,
            ) && self.index@[self.slab@[rest[i]].ip] == rest[i] by {
                assert(order[i] == rest[i]);
                assert(order[i] != order[k]);
                assert(same_bucket(self.slab@[rest[i]], old(self).slab@[rest[i]]));
            }
            assert forall|a: IpAddr| #[trigger] self.index@.contains_key(
                a,
            ) implies self.slab@[self.index@[a] as int].ip == a && rest.contains(
                self.index@[a] as int,
            ) by {
                assert(old(self).index@.contains_key(a));
                let x = self.index@[a] as int;
                let j = order.index_of(x);
                assert(order[j] == x);
                assert(0 <= order[j] < old(self).slab@.len());
                assert(same_bucket(self.slab@[x], old(self).slab@[x]));
                assert(j != k);
                assert(rest[j] == x);
            }
        }
        victim
    }

    /// Finds a slot for a new address: a fresh one while there is room, else the
    /// one of the least recently seen address. The slot is not linked.
    fn acquire_slot(&mut self, ip: IpAddr) -> (slot: usize)
        requires
            old(self).wf(),
        ensures
            slot < final(self).slab@.len(),
            final(self).slab@.len() <= final(self).cap,
            final(self).order@.len() + 1 == final(self).slab@.len(),
            final(self).order@ == (if old(self).order@.len() < old(self).cap {
                old(self).order@
            } else {
                old(self).order@.drop_last()
            }),
            !final(self).order@.contains(slot as int),
            threads(final(self).slab@, final(self).order@, final(self).head, final(self).tail),
            final(self).indexed(final(self).order@),
            forall|a: IpAddr| #[trigger]
                final(self).index@.contains_key(a) ==> old(self).index@.contains_key(a),
            final(self).slab@.len() >= old(self).slab@.len(),
            forall|s: int|
                0 <= s < old(self).slab@.len() ==> same_bucket(
                    #[trigger] final(self).slab@[s],
                    old(self).slab@[s],
                ),
            final(self).filled(),
            final(self).cap == old(self).cap,
            final(self).quota_per_sec == old(self).quota_per_sec,
            final(self).clock == old(self).clock,
    {
        let ghost order = self.order@;
        if self.slab.len() < self.cap {
            let slot: usize = self.slab.len();
            self.slab.push(Node { ip, tokens: 0, last_refill: 0, prev: NIL, next: NIL });
            proof {
                assert forall|i: int| 0 <= i < order.len() implies #[trigger] linked_at(
                    self.slab@,
                    order,
                    i,
                ) by {
                    assert(linked_at(old(self).slab@, order, i));
                    assert(0 <= order[i] < old(self).slab@.len());
                }
                if order.contains(slot as int) {
                    let j = order.index_of(slot as int);
                    assert(0 <= order[j] < old(self).slab@.len());
                }
                assert forall|i: int| 0 <= i < order.len() implies self.index@.contains_key(
                    self.slab@[#[trigger] order[i]].ip,
                ) && self.index@[self.slab@[order[i]].ip] == order[i] by {
                    assert(0 <= order[i] < old(self).slab@.len());
                }
                assert forall|a: IpAddr| #[trigger] self.index@.contains_key(
                    a,
                ) implies self.slab@[self.index@[a] as int].ip == a && order.contains(
                    self.index@[a] as int,
                ) by {
                    let j = order.index_of(self.index@[a] as int);
                    assert(0 <= order[j] < old(self).slab@.len());
                }
            }
            return slot;
        }
        let victim = self.evict_tail();
        proof {
            assert forall|s: int| 0 <= s < self.slab@.len() implies (
            #[trigger] self.slab@[s]).tokens <= full(self.quota_per_sec as nat) by {
                assert(same_bucket(self.slab@[s], old(self).slab@[s]));
            }
        }
        victim
    }

    /// The bucket of an address that the index knows is where the index says,
    /// and an address that it does not know has none.
    proof fn lemma_position(&self, ip: IpAddr)
        requires
            self.wf(),
        ensures
            match position(self.buckets(), ip) {
                Some(k) => 0 <= k < self.order@.len() && self.index@.contains_key(ip)
                    && self.order@[k] == self.index@[ip],
                None => !self.index@.contains_key(ip),
            },
    {
        let b = self.buckets();
        lemma_position_found(b, ip);
        match position(b, ip) {
            Some(k) => {
                assert(b[k].ip == self.slab@[self.order@[k]].ip);
            },
            None => {
                if self.index@.contains_key(ip) {
                    let j = self.order@.index_of(self.index@[ip] as int);
                    assert(self.order@[j] == self.index@[ip]);
                    assert(b[j].ip == ip);
                }
            },
        }
    }

    /// Empty buckets for at most `cap` addresses. A capacity or a quota of zero
    /// counts as one.
    pub fn new(quota_per_sec: u32, cap: usize, clock: C) -> (r: LruTokenBuckets<C>)
        ensures
            r.wf(),
            r.buckets() == Seq::<Bucket>::empty(),
            r.capacity() == (if cap == 0 {
                1
            } else {
                cap as nat
            }),
            r.quota() == (if quota_per_sec == 0 {
                1
            } else {
                quota_per_sec as nat
            }),
    {
        let cap: usize = if cap == 0 {
            1
        } else {
            cap
        };
        let quota_per_sec: u32 = if quota_per_sec == 0 {
            1
        } else {
            quota_per_sec
        };
        let r = LruTokenBuckets {
            index: IpIndex::new(),
            slab: Vec::new(),
            head: NIL,
            tail: NIL,
            cap,
            quota_per_sec,
            clock,
            order: Ghost(Seq::empty()),
        };
        assert(r.buckets() =~= Seq::<Bucket>::empty());
        r
    }

    /// The number of addresses tracked.
    pub fn tracked_len(&self) -> (r: usize)
        requires
            self.wf(),
        ensures
            r == self.buckets().len(),
    {
        self.slab.len()
    }

    /// Whether an address has a bucket.
    pub fn tracked_contains(&self, ip: &IpAddr) -> (r: bool)
        requires
            self.wf(),
        ensures
            r == (position(self.buckets(), *ip) is Some),
    {
        proof {
            self.lemma_position(*ip);
        }
        self.index.get(*ip).is_some()
    }

    /// Accounts for a request from `ip` at `now`: whether it is allowed.
    pub fn check_at(&mut self, ip: IpAddr, now: u64) -> (allowed: bool)
        requires
            old(self).wf(),
        ensures
            final(self).wf(),
            final(self).capacity() == old(self).capacity(),
            final(self).quota() == old(self).quota(),
            allowed == has_token(
                tokens_at(old(self).buckets(), old(self).quota(), ip, now as nat),
            ),
            final(self).buckets() == after_request(
                old(self).buckets(),
                old(self).capacity(),
                old(self).quota(),
                ip,
                now as nat,
            ),
    {
        proof {
            self.lemma_position(ip);
        }
        match self.index.get(ip) {
            Some(slot) => self.check_known(slot, ip, now),
            None => self.check_new(ip, now),
        }
    }

    /// A request from an address that has a bucket.
    fn check_known(&mut self, slot: usize, ip: IpAddr, now: u64) -> (allowed: bool)
        requires
            old(self).wf(),
            position(old(self).buckets(), ip) is Some,
            old(self).order@[position(old(self).buckets(), ip)->0] == slot,
        ensures
            final(self).wf(),
            final(self).capacity() == old(self).capacity(),
            final(self).quota() == old(self).quota(),
            allowed == has_token(
                tokens_at(old(self).buckets(), old(self).quota(), ip, now as nat),
            ),
            final(self).buckets() == after_request(
                old(self).buckets(),
                old(self).capacity(),
                old(self).quota(),
                ip,
                now as nat,
            ),
    {
        let quota: u64 = self.quota_per_sec as u64;
        let brim: u64 = quota * TOKEN;
        let ghost before = self.buckets();
        let ghost order = self.order@;
        proof {
            self.lemma_position(ip);
        }
        let ghost k = position(before, ip)->0;
        assert(before[k] == bucket_of(self.slab@[slot as int]));
        self.touch(slot, Ghost(k));
        let mut node = self.slab[slot];
        assert(same_bucket(node, old(self).slab@[slot as int]));
        let passed: u64 = if now >= node.last_refill {
            now - node.last_refill
        } else {
            0
        };
        assert(0 <= passed as int * quota as int <= 0xffff_ffff_ffff_ffff
            * 0xffff_ffff) by (nonlinear_arith)
            requires
                0 <= passed <= 0xffff_ffff_ffff_ffff,
                0 <= quota <= 0xffff_ffff,
        ;
        let grown: u128 = node.tokens as u128 + passed as u128 * quota as u128;
        node.tokens = if grown > brim as u128 {
            brim
        } else {
            grown as u64
        };
        node.last_refill = now;
        let allowed = consume(&mut node.tokens);
        let ghost mid = self.slab@;
        self.slab.set(slot, node);
        proof {
            let moved = self.order@;
            assert(moved[0] == slot);
            assert forall|i: int| 0 <= i < moved.len() implies #[trigger] linked_at(
                self.slab@,
                moved,
                i,
            ) by {
                assert(linked_at(mid, moved, i));
                assert(i > 0 ==> moved[i] != moved[0]);
            }
            assert(self.buckets() =~= after_request(
                before,
                old(self).capacity(),
                old(self).quota(),
                ip,
                now as nat,
            )) by {
                assert forall|i: int| 0 <= i < moved.len() implies self.buckets()[i]
                    == after_request(
                    before,
                    old(self).capacity(),
                    old(self).quota(),
                    ip,
                    now as nat,
                )[i] by {
                    if i > 0 {
                        assert(moved[i] != moved[0]);
                        let j = if i - 1 < k {
                            i - 1
                        } else {
                            i
                        };
                        assert(moved[i] == order[j]);
                        assert(0 <= order[j] < old(self).slab@.len());
                    }
                }
            }
        }
        allowed
    }

    /// A request from an address that has no bucket.
    fn check_new(&mut self, ip: IpAddr, now: u64) -> (allowed: bool)
        requires
            old(self).wf(),
            position(old(self).buckets(), ip) is None,
        ensures
            final(self).wf(),
            final(self).capacity() == old(self).capacity(),
            final(self).quota() == old(self).quota(),
            allowed == has_token(
                tokens_at(old(self).buckets(), old(self).quota(), ip, now as nat),
            ),
            final(self).buckets() == after_request(
                old(self).buckets(),
                old(self).capacity(),
                old(self).quota(),
                ip,
                now as nat,
            ),
    {
        let quota: u64 = self.quota_per_sec as u64;
        let brim: u64 = quota * TOKEN;
        let ghost before = self.buckets();
        let ghost order = self.order@;
        proof {
            self.lemma_position(ip);
        }
        let slot = self.acquire_slot(ip);
        let ghost kept = self.order@;
        let mut node = self.slab[slot];
        node.ip = ip;
        node.tokens = brim;
        node.last_refill = now;
        let allowed = consume(&mut node.tokens);
        let ghost mid = self.slab@;
        self.slab.set(slot, node);
        self.index.insert(ip, slot);
        proof {
            assert forall|i: int| 0 <= i < kept.len() implies #[trigger] linked_at(
                self.slab@,
                kept,
                i,
            ) by {
                assert(kept.contains(kept[i]));
                assert(linked_at(mid, kept, i));
            }
        }
        self.push_front(slot);
        proof {
            let whole = self.order@;
            assert forall|i: int| 0 <= i < kept.len() implies kept[i] != slot by {
                assert(kept.contains(kept[i]));
            }
            assert forall|i: int| 0 <= i < whole.len() implies self.index@.contains_key(
                self.slab@[#[trigger] whole[i]].ip,
            ) && self.index@[self.slab@[whole[i]].ip] == whole[i] by {
                if i > 0 {
                    assert(whole[i] == kept[i - 1]);
                    assert(0 <= kept[i - 1] < mid.len());
                }
            }
            assert forall|a: IpAddr| #[trigger] self.index@.contains_key(
                a,
            ) implies self.slab@[self.index@[a] as int].ip == a && whole.contains(
                self.index@[a] as int,
            ) by {
                if a == ip {
                    assert(whole[0] == slot);
                } else {
                    let x = self.index@[a] as int;
                    assert(kept.contains(x));
                    let j = kept.index_of(x);
                    assert(kept[j] == x);
                    assert(whole[j + 1] == x);
                    assert(0 <= kept[j] < mid.len());
                }
            }
            assert(self.buckets() =~= after_request(
                before,
                old(self).capacity(),
                old(self).quota(),
                ip,
                now as nat,
            )) by {
                assert forall|i: int| 0 <= i < whole.len() implies self.buckets()[i]
                    == after_request(
                    before,
                    old(self).capacity(),
                    old(self).quota(),
                    ip,
                    now as nat,
                )[i] by {
                    if i > 0 {
                        assert(whole[i] == kept[i - 1]);
                        assert(kept[i - 1] == order[i - 1]);
                        assert(0 <= order[i - 1] < old(self).slab@.len());
                        assert(same_bucket(
                            mid[order[i - 1]],
                            old(self).slab@[order[i - 1]],
                        ));
                    }
                }
            }
        }
        allowed
    }

    /// Accounts for a request from `ip` now: whether it is allowed.
    pub fn check(&mut self, ip: IpAddr) -> (allowed: bool)
        requires
            old(self).wf(),
        ensures
            final(self).wf(),
            final(self).capacity() == old(self).capacity(),
            final(self).quota() == old(self).quota(),
            exists|now: nat|
                #![trigger tokens_at(old(self).buckets(), old(self).quota(), ip, now)]
                allowed == has_token(tokens_at(old(self).buckets(), old(self).quota(), ip, now))
                    && final(self).buckets() == after_request(
                    old(self).buckets(),
                    old(self).capacity(),
                    old(self).quota(),
                    ip,
                    now,
                ),
    {
        let now = self.clock.now();
        self.check_at(ip, now)
    }
}

/// Takes a token, if there is one.
pub fn consume(tokens: &mut u64) -> (taken: bool)
    ensures
        taken == has_token(*old(tokens) as nat),
        *final(tokens) == consumed(*old(tokens) as nat),
{
    if *tokens >= TOKEN {
        *tokens = *tokens - TOKEN;
        true
    } else {
        false
    }
}

proof fn lemma_position_found(b: Seq<Bucket>, ip: IpAddr)
    ensures
        match position(b, ip) {
            Some(k) => 0 <= k < b.len() && b[k].ip == ip,
            None => forall|i: int| 0 <= i < b.len() ==> (#[trigger] b[i]).ip != ip,
        },
    decreases b.len(),
{
    if b.len() > 0 && b.last().ip != ip {
        lemma_position_found(b.drop_last(), ip);
        if position(b, ip) is None {
            assert forall|i: int| 0 <= i < b.len() implies (#[trigger] b[i]).ip != ip by {
                if i < b.len() - 1 {
                    assert(b.drop_last()[i] == b[i]);
                }
            }
        }
    }
}

// ---------------------------------------------------------------------------
// The detector
// ---------------------------------------------------------------------------
/// The verdict on an address that is on the deny list.
pub open spec fn denied_verdict(ip: IpAddr) -> VerdictView {
    VerdictView {
        group: Group::Reputation,
        rule: "ip_denied"@,
        severity: Severity::High,
        detail: "source IP "@ + ip.text() + " on deny list"@,
    }
}

/// The verdict on an address whose bucket is empty.
pub open spec fn limited_verdict(ip: IpAddr) -> VerdictView {
    VerdictView {
        group: Group::Reputation,
        rule: "rate_limited"@,
        severity: Severity::Medium,
        detail: "source IP "@ + ip.text() + " exceeded rate quota"@,
    }
}

/// The verdicts on a request from `ip`.
pub open spec fn reputation_verdicts(ip: IpAddr, denied: bool, allowed: bool) -> Seq<VerdictView> {
    detectors::when(denied, denied_verdict(ip)) + detectors::when(!allowed, limited_verdict(ip))
}

/// Flags addresses on a deny list, and addresses that send too much.
pub struct ReputationDetector {
    /// The buckets of the addresses.
    pub state: LruTokenBuckets<SystemClock>,
    /// The addresses that are always flagged.
    pub deny_list: Vec<IpAddr>,
}

fn list_contains(list: &Vec<IpAddr>, ip: IpAddr) -> (r: bool)
    ensures
        r == list@.contains(ip),
{
    let mut i: usize = 0;
    while i < list.len()
        invariant
            i <= list@.len(),
            forall|k: int| 0 <= k < i ==> list@[k] != ip,
        decreases list@.len() - i,
    {
        if list[i] == ip {
            assert(list@[i as int] == ip);
            return true;
        }
        i = i + 1;
    }
    false
}

/// The verdicts on a request from an address.
pub fn verdicts_for(ip: IpAddr, denied: bool, allowed: bool) -> (r: Vec<Verdict>)
    ensures
        detectors::verdict_views(r@) == reputation_verdicts(ip, denied, allowed),
{
    let mut out: Vec<Verdict> = Vec::new();
    if denied {
        let detail = join3("source IP ", &ip.to_text(), " on deny list");
        out.push(
            Verdict {
                group: Group::Reputation,
                rule: "ip_denied",
                severity: Severity::High,
                detail,
            },
        );
    }
    if !allowed {
        let detail = join3("source IP ", &ip.to_text(), " exceeded rate quota");
        out.push(
            Verdict {
                group: Group::Reputation,
                rule: "rate_limited",
                severity: Severity::Medium,
                detail,
            },
        );
    }
    assert(detectors::verdict_views(out@) =~= reputation_verdicts(ip, denied, allowed));
    out
}

impl ReputationDetector {
    /// A detector that allows `per_second` requests from one address and tracks
    /// the default number of addresses.
    pub fn new(per_second: u32, deny_list: Vec<IpAddr>) -> (r: ReputationDetector)
        ensures
            r.valid(),
            r.deny_list@ == deny_list@,
            r.state.buckets() == Seq::<Bucket>::empty(),
            r.state.capacity() == DEFAULT_MAX_TRACKED_IPS,
            r.state.quota() == (if per_second == 0 {
                1
            } else {
                per_second as nat
            }),
    {
        ReputationDetector::with_capacity(per_second, deny_list, DEFAULT_MAX_TRACKED_IPS)
    }

    /// A detector that tracks at most `max_tracked_ips` addresses.
    pub fn with_capacity(per_second: u32, deny_list: Vec<IpAddr>, max_tracked_ips: usize) -> (r:
        ReputationDetector)
        ensures
            r.valid(),
            r.deny_list@ == deny_list@,
            r.state.buckets() == Seq::<Bucket>::empty(),
            r.state.capacity() == (if max_tracked_ips == 0 {
                1
            } else {
                max_tracked_ips as nat
            }),
            r.state.quota() == (if per_second == 0 {
                1
            } else {
                per_second as nat
            }),
    {
        ReputationDetector {
            state: LruTokenBuckets::new(per_second, max_tracked_ips, SystemClock::new()),
            deny_list,
        }
    }

    /// Inspects a request that came at `now`.
    pub fn inspect_at(&mut self, req: &Request, now: u64) -> (r: Vec<Verdict>)
        requires
            old(self).valid(),
        ensures
            final(self).valid(),
            final(self).deny_list@ == old(self).deny_list@,
            detectors::verdict_views(r@) == reputation_verdicts(
                req@.source_ip,
                old(self).deny_list@.contains(req@.source_ip),
                has_token(
                    tokens_at(
                        old(self).state.buckets(),
                        old(self).state.quota(),
                        req@.source_ip,
                        now as nat,
                    ),
                ),
            ),
            final(self).state.buckets() == after_request(
                old(self).state.buckets(),
                old(self).state.capacity(),
                old(self).state.quota(),
                req@.source_ip,
                now as nat,
            ),
            final(self).state.capacity() == old(self).state.capacity(),
            final(self).state.quota() == old(self).state.quota(),
    {
        let denied = list_contains(&self.deny_list, req.source_ip);
        let allowed = self.state.check_at(req.source_ip, now);
        verdicts_for(req.source_ip, denied, allowed)
    }
}

impl Detector for ReputationDetector {
    open spec fn group_spec(&self) -> Group {
        Group::Reputation
    }

    open spec fn valid(&self) -> bool {
        self.state.wf()
    }

    open spec fn may_react(
        &self,
        req: RequestModel,
        verdicts: Seq<VerdictView>,
        after: &Self,
    ) -> bool {
        &&& after.deny_list@ == self.deny_list@
        &&& after.state.capacity() == self.state.capacity()
        &&& after.state.quota() == self.state.quota()
        &&& exists|now: nat|
            #![trigger tokens_at(self.state.buckets(), self.state.quota(), req.source_ip, now)]
            verdicts == reputation_verdicts(
                req.source_ip,
                self.deny_list@.contains(req.source_ip),
                has_token(
                    tokens_at(self.state.buckets(), self.state.quota(), req.source_ip, now),
                ),
            ) && after.state.buckets() == after_request(
                self.state.buckets(),
                self.state.capacity(),
                self.state.quota(),
                req.source_ip,
                now,
            )
    }

    fn group(&self) -> (g: Group) {
        Group::Reputation
    }

    fn inspect(&mut self, req: &Request) -> (r: Vec<Verdict>) {
        let denied = list_contains(&self.deny_list, req.source_ip);
        let allowed = self.state.check(req.source_ip);
        verdicts_for(req.source_ip, denied, allowed)
    }
}

// ---------------------------------------------------------------------------
// Laws
// ---------------------------------------------------------------------------
/// The number of tracked addresses never exceeds the capacity.
pub proof fn law_tracked_addresses_are_bounded(
    buckets: Seq<Bucket>,
    cap: nat,
    quota: nat,
    ip: IpAddr,
    now: nat,
)
    requires
        1 <= cap,
        buckets.len() <= cap,
    ensures
        after_request(buckets, cap, quota, ip, now).len() <= cap,
{
    lemma_position_found(buckets, ip);
}

/// The address that sent a request is the most recently seen one; the others
/// keep their order, and only the least recently seen can be gone, and only
/// where a new address needs its place.
pub proof fn law_least_recently_seen_leaves(
    buckets: Seq<Bucket>,
    cap: nat,
    quota: nat,
    ip: IpAddr,
    now: nat,
)
    requires
        1 <= cap,
        buckets.len() <= cap,
    ensures
        ({
            let after = after_request(buckets, cap, quota, ip, now);
            &&& after[0].ip == ip
            &&& match position(buckets, ip) {
                Some(k) => after.skip(1) == buckets.take(k) + buckets.skip(k + 1),
                None => if buckets.len() == cap {
                    after.skip(1) == buckets.take(buckets.len() - 1)
                } else {
                    after.skip(1) == buckets
                },
            }
        }),
{
    lemma_position_found(buckets, ip);
    let after = after_request(buckets, cap, quota, ip, now);
    assert(after.skip(1) =~= others(buckets, cap, ip));
    match position(buckets, ip) {
        Some(k) => {
            assert(buckets.remove(k) =~= buckets.take(k) + buckets.skip(k + 1));
        },
        None => {
            if buckets.len() == cap {
                assert(buckets.drop_last() =~= buckets.take(buckets.len() - 1));
            }
        },
    }
}

/// An address that is not tracked, because it is new or because it was evicted,
/// starts with a full bucket: its request is allowed.
pub proof fn law_untracked_address_starts_full(
    buckets: Seq<Bucket>,
    quota: nat,
    ip: IpAddr,
    now: nat,
)
    requires
        quota >= 1,
        position(buckets, ip) is None,
    ensures
        tokens_at(buckets, quota, ip, now) == full(quota),
        has_token(tokens_at(buckets, quota, ip, now)),
{
    assert(full(quota) >= TOKEN) by (nonlinear_arith)
        requires
            quota >= 1,
            full(quota) == quota * TOKEN as nat,
    ;
}

/// A second without a request fills a bucket.
pub proof fn law_idle_second_refills(tokens: nat, elapsed: nat, quota: nat)
    requires
        elapsed >= TOKEN,
    ensures
        refilled(tokens, elapsed, quota) == full(quota),
{
    assert(elapsed * quota >= quota * TOKEN as nat) by (nonlinear_arith)
        requires
            elapsed >= TOKEN,
    ;
}

/// The buckets after a series of requests, each from an address at a moment, where
/// none was tracked before.
pub open spec fn after_requests(cap: nat, quota: nat, reqs: Seq<(IpAddr, nat)>) -> Seq<Bucket>
    decreases reqs.len(),
{
    if reqs.len() == 0 {
        Seq::empty()
    } else {
        after_request(
            after_requests(cap, quota, reqs.drop_last()),
            cap,
            quota,
            reqs.last().0,
            reqs.last().1,
        )
    }
}

/// The place of the last request from an address, or -1 where there is none.
pub open spec fn last_seen(reqs: Seq<(IpAddr, nat)>, ip: IpAddr) -> int
    decreases reqs.len(),
{
    if reqs.len() == 0 {
        -1
    } else if reqs.last().0 == ip {
        reqs.len() - 1
    } else {
        last_seen(reqs.drop_last(), ip)
    }
}

proof fn lemma_last_seen(reqs: Seq<(IpAddr, nat)>, ip: IpAddr)
    ensures
        -1 <= last_seen(reqs, ip) < reqs.len(),
    decreases reqs.len(),
{
    if reqs.len() > 0 {
        lemma_last_seen(reqs.drop_last(), ip);
    }
}

/// After any series of requests, the tracked addresses are the most recently seen
/// ones, each once, the latest first: all that were seen, as far as there is room,
/// and none that was seen before one that is not tracked.
pub proof fn law_most_recently_seen_are_tracked(cap: nat, quota: nat, reqs: Seq<(IpAddr, nat)>)
    requires
        1 <= cap,
    ensures
        ({
            let b = after_requests(cap, quota, reqs);
            &&& b.len() <= cap
            &&& forall|i: int| 0 <= i < b.len() ==> last_seen(reqs, (#[trigger] b[i]).ip) >= 0
            &&& forall|i: int, j: int|
                0 <= i < j < b.len() ==> last_seen(reqs, (#[trigger] b[i]).ip) > last_seen(
                    reqs,
                    (#[trigger] b[j]).ip,
                )
            &&& forall|ip: IpAddr| #[trigger]
                last_seen(reqs, ip) >= 0 && position(b, ip) is None ==> b.len() == cap
            &&& forall|ip: IpAddr, i: int|
                #![trigger last_seen(reqs, ip), b[i]]
                position(b, ip) is None && 0 <= i < b.len() ==> last_seen(reqs, ip) < last_seen(
                    reqs,
                    b[i].ip,
                )
        }),
    decreases reqs.len(),
{
    if reqs.len() > 0 {
        let front = reqs.drop_last();
        law_most_recently_seen_are_tracked(cap, quota, front);
        let (ip, now) = reqs.last();
        let a = after_requests(cap, quota, front);
        let b = after_requests(cap, quota, reqs);
        lemma_position_found(a, ip);
        let rest = others(a, cap, ip);
        assert(b[0].ip == ip);
        assert forall|x: IpAddr| #[trigger] last_seen(reqs, x) == if x == ip {
            reqs.len() - 1
        } else {
            last_seen(front, x)
        } by {}
        // Where each of the others was before.
        let from = |i: int| match position(a, ip) {
            Some(k) => if i < k {
                i
            } else {
                i + 1
            },
            None => i,
        };
        assert forall|i: int| 0 <= i < rest.len() implies 0 <= from(i) < a.len() && (
        #[trigger] rest[i]) == a[from(i)] && rest[i].ip != ip by {
            if let Some(k) = position(a, ip) {
                if a[from(i)].ip == ip {
                    if from(i) < k {
                        assert(last_seen(front, a[from(i)].ip) > last_seen(front, a[k].ip));
                    } else {
                        assert(last_seen(front, a[k].ip) > last_seen(front, a[from(i)].ip));
                    }
                }
            }
        }
        assert forall|i: int| 0 <= i < b.len() implies last_seen(reqs, (#[trigger] b[i]).ip)
            >= 0 by {
            if i > 0 {
                assert(b[i] == rest[i - 1]);
                assert(last_seen(front, a[from(i - 1)].ip) >= 0);
            }
        }
        assert forall|i: int, j: int| 0 <= i < j < b.len() implies last_seen(
            reqs,
            (#[trigger] b[i]).ip,
        ) > last_seen(reqs, (#[trigger] b[j]).ip) by {
            assert(b[j] == rest[j - 1]);
            lemma_last_seen(front, b[j].ip);
            if i > 0 {
                assert(b[i] == rest[i - 1]);
                assert(from(i - 1) < from(j - 1));
                assert(last_seen(front, a[from(i - 1)].ip) > last_seen(front, a[from(j - 1)].ip));
            }
        }
        assert forall|x: IpAddr| position(b, x) is None implies x != ip && (position(a, x) is None
            || (position(a, ip) is None && a.len() == cap && a.last().ip == x)) by {
            lemma_position_found(b, x);
            lemma_position_found(a, x);
            assert(b[0].ip != x);
            if position(a, x) is Some {
                let q = position(a, x)->0;
                match position(a, ip) {
                    Some(k) => {
                        let z = if q < k {
                            q
                        } else {
                            q - 1
                        };
                        assert(rest[z] == a[q]);
                        assert(b[z + 1] == rest[z]);
                    },
                    None => {
                        if q < rest.len() {
                            assert(rest[q] == a[q]);
                            assert(b[q + 1] == rest[q]);
                        }
                    },
                }
            }
        }
        assert forall|x: IpAddr| #[trigger]
            last_seen(reqs, x) >= 0 && position(b, x) is None implies b.len() == cap by {
            if position(a, x) is None {
                assert(last_seen(front, x) >= 0);
                assert(a.len() == cap);
            }
        }
        assert forall|x: IpAddr, i: int|
            #![trigger last_seen(reqs, x), b[i]]
            position(b, x) is None && 0 <= i < b.len() implies last_seen(reqs, x) < last_seen(
            reqs,
            b[i].ip,
        ) by {
            lemma_last_seen(front, x);
            if i > 0 {
                assert(b[i] == rest[i - 1]);
                let q = from(i - 1);
                assert(a[q] == b[i]);
                if position(a, x) is None {
                    assert(last_seen(front, x) < last_seen(front, a[q].ip));
                } else {
                    assert(last_seen(front, a[q].ip) > last_seen(front, a[a.len() - 1].ip));
                }
            }
        }
    }
}

/// The buckets after `n` requests from `ip` at one and the same moment.
pub open spec fn after_burst(
    buckets: Seq<Bucket>,
    cap: nat,
    quota: nat,
    ip: IpAddr,
    now: nat,
    n: nat,
) -> Seq<Bucket>
    decreases n,
{
    if n == 0 {
        buckets
    } else {
        after_request(
            after_burst(buckets, cap, quota, ip, now, (n - 1) as nat),
            cap,
            quota,
            ip,
            now,
        )
    }
}

/// A burst from a new address is allowed for exactly as many requests as the
/// quota, and refused from then on.
pub proof fn law_burst_is_limited_by_quota(
    buckets: Seq<Bucket>,
    cap: nat,
    quota: nat,
    ip: IpAddr,
    now: nat,
    n: nat,
)
    requires
        1 <= cap,
        position(buckets, ip) is None,
    ensures
        has_token(
            tokens_at(after_burst(buckets, cap, quota, ip, now, n), quota, ip, now),
        ) == (n < quota),
{
    lemma_burst(buckets, cap, quota, ip, now, n);
    let left = if n < quota {
        (quota - n) as nat
    } else {
        0
    };
    assert(left * TOKEN as nat >= TOKEN <==> left >= 1) by (nonlinear_arith);
}

proof fn lemma_burst(
    buckets: Seq<Bucket>,
    cap: nat,
    quota: nat,
    ip: IpAddr,
    now: nat,
    n: nat,
)
    requires
        1 <= cap,
        position(buckets, ip) is None,
    ensures
        tokens_at(after_burst(buckets, cap, quota, ip, now, n), quota, ip, now) == (if n < quota {
            (quota - n) as nat
        } else {
            0
        }) * TOKEN as nat,
    decreases n,
{
    if n > 0 {
        let m = (n - 1) as nat;
        lemma_burst(buckets, cap, quota, ip, now, m);
        let before = after_burst(buckets, cap, quota, ip, now, m);
        let after = after_request(before, cap, quota, ip, now);
        lemma_position_found(before, ip);
        lemma_position_found(after, ip);
        lemma_only_first(buckets, cap, quota, ip, now, n);
        assert(position(after, ip) == Some(0int)) by {
            assert(after[0].ip == ip);
        }
        let t = tokens_at(before, quota, ip, now);
        let left = if m < quota {
            (quota - m) as nat
        } else {
            0
        };
        assert(t == left * TOKEN as nat);
        assert(left * TOKEN as nat >= TOKEN <==> left >= 1) by (nonlinear_arith);
        assert(left >= 1 ==> left * TOKEN as nat - TOKEN == (left - 1) * TOKEN) by (nonlinear_arith);
        assert(left <= quota ==> left * TOKEN as nat <= quota * TOKEN as nat) by (nonlinear_arith);
        assert(elapsed(now, now) * quota == 0) by (nonlinear_arith)
            requires
                elapsed(now, now) == 0,
        ;
    }
}

/// Behind the first place, an address that was not tracked before does not occur.
proof fn lemma_only_first(
    buckets: Seq<Bucket>,
    cap: nat,
    quota: nat,
    ip: IpAddr,
    now: nat,
    n: nat,
)
    requires
        1 <= cap,
        position(buckets, ip) is None,
    ensures
        ({
            let after = after_burst(buckets, cap, quota, ip, now, n);
            &&& n > 0 ==> after.len() > 0 && after[0].ip == ip
            &&& forall|i: int|
                0 <= i < after.len() && (n == 0 || i > 0) ==> (#[trigger] after[i]).ip != ip
        }),
    decreases n,
{
    if n == 0 {
        lemma_position_found(buckets, ip);
    } else {
        let m = (n - 1) as nat;
        lemma_only_first(buckets, cap, quota, ip, now, m);
        let before = after_burst(buckets, cap, quota, ip, now, m);
        lemma_position_found(before, ip);
        let rest = others(before, cap, ip);
        let after = after_burst(buckets, cap, quota, ip, now, n);
        assert forall|i: int| 0 < i < after.len() implies (#[trigger] after[i]).ip != ip by {
            assert(after[i] == rest[i - 1]);
            match position(before, ip) {
                Some(k) => {
                    assert(k == 0);
                    assert(rest[i - 1] == before[i]);
                },
                None => {
                    assert(rest[i - 1] == before[i - 1]);
                },
            }
        }
    }
}

proof fn lemma_position_is(b: Seq<Bucket>, ip: IpAddr, i: int)
    requires
        0 <= i < b.len(),
        b[i].ip == ip,
        forall|j: int| 0 <= j < b.len() && j != i ==> (#[trigger] b[j]).ip != ip,
    ensures
        position(b, ip) == Some(i),
{
    lemma_position_found(b, ip);
    if position(b, ip) is None {
        assert(b[i].ip != ip);
    }
}

/// What a tracked address has left is found wherever its bucket stands: its tokens with one
/// `quota`-th of a token more for each nanosecond since, and never more than `quota` tokens.
/// A clock that went back adds nothing.
pub proof fn law_tracked_address_refills(
    b: Seq<Bucket>,
    quota: nat,
    i: int,
    now: nat,
)
    requires
        0 <= i < b.len(),
        forall|j: int| 0 <= j < b.len() && j != i ==> (#[trigger] b[j]).ip != b[i].ip,
    ensures
        ({
            let t = tokens_at(b, quota, b[i].ip, now);
            let gained = if now >= b[i].last_refill {
                (now - b[i].last_refill) * quota
            } else {
                0
            };
            &&& t <= quota * 1_000_000_000
            &&& t <= b[i].tokens + gained
            &&& t == quota * 1_000_000_000 || t == b[i].tokens + gained
        }),
{
    lemma_position_is(b, b[i].ip, i);
    assert(0 * quota == 0) by (nonlinear_arith);
    assert(full(quota) == quota * 1_000_000_000) by (nonlinear_arith)
        requires
            full(quota) == quota * TOKEN as nat,
    ;
}

/// Two refills in a row are one refill for the whole time.
pub proof fn law_refills_add_up(tokens: nat, first: nat, second: nat, quota: nat)
    ensures
        refilled(refilled(tokens, first, quota), second, quota) == refilled(
            tokens,
            first + second,
            quota,
        ),
{
    assert((first + second) * quota == first * quota + second * quota) by (nonlinear_arith);
    assert(first * quota >= 0 && second * quota >= 0) by (nonlinear_arith);
}

/// A spent bucket has a token again once the time since, times the quota, is a second.
pub proof fn law_spent_bucket_recovers(elapsed: nat, quota: nat)
    requires
        quota >= 1,
    ensures
        has_token(refilled(0, elapsed, quota)) <==> elapsed * quota >= 1_000_000_000,
        !has_token(consumed(refilled(0, elapsed, 1))),
{
    assert(quota * 1_000_000_000 >= 1_000_000_000) by (nonlinear_arith)
        requires
            quota >= 1,
    ;
}

/// A request takes one whole token where there is one and nothing where there is none, and
/// remembers its moment.
pub proof fn law_request_takes_one_token(
    b: Seq<Bucket>,
    cap: nat,
    quota: nat,
    ip: IpAddr,
    now: nat,
)
    ensures
        ({
            let t = tokens_at(b, quota, ip, now);
            let mine = after_request(b, cap, quota, ip, now)[0];
            &&& mine.ip == ip
            &&& mine.last_refill == now
            &&& t >= 1_000_000_000 ==> mine.tokens == t - 1_000_000_000
            &&& t < 1_000_000_000 ==> mine.tokens == t
        }),
{
}

/// A request of one address leaves the tokens of every other one alone, as long as that one
/// is still tracked.
pub proof fn law_addresses_do_not_share_tokens(
    b: Seq<Bucket>,
    cap: nat,
    quota: nat,
    ip: IpAddr,
    other: IpAddr,
    now: nat,
    later: nat,
    i: int,
)
    requires
        ip != other,
        0 <= i < b.len(),
        b[i].ip == other,
        forall|j: int, k: int|
            0 <= j < k < b.len() ==> (#[trigger] b[j]).ip != (#[trigger] b[k]).ip,
        position(b, ip) is Some || i < b.len() - 1 || b.len() < cap,
    ensures
        tokens_at(after_request(b, cap, quota, ip, now), quota, other, later) == tokens_at(
            b,
            quota,
            other,
            later,
        ),
{
    let a = after_request(b, cap, quota, ip, now);
    let rest = others(b, cap, ip);
    lemma_position_found(b, ip);
    lemma_position_is(b, other, i);
    let z = match position(b, ip) {
        Some(k) => if i < k {
            i
        } else {
            i - 1
        },
        None => i,
    };
    assert(rest[z] == b[i]);
    assert(a[z + 1] == b[i]);
    assert forall|j: int| 0 <= j < a.len() && j != z + 1 implies (#[trigger] a[j]).ip != other by {
        if j > 0 {
            let from = match position(b, ip) {
                Some(k) => if j - 1 < k {
                    j - 1
                } else {
                    j
                },
                None => j - 1,
            };
            assert(a[j] == rest[j - 1]);
            assert(rest[j - 1] == b[from]);
            assert(from != i);
        }
    }
    lemma_position_is(a, other, z + 1);
}

/// A denied address gets the high verdict, and one without a token the medium one, each
/// with the address in it; no other verdict comes, and these come in this order.
pub proof fn law_reputation_verdicts(ip: IpAddr, denied: bool, allowed: bool)
    ensures
        ({
            let vs = reputation_verdicts(ip, denied, allowed);
            let high = VerdictView {
                group: Group::Reputation,
                rule: "ip_denied"@,
                severity: Severity::High,
                detail: "source IP "@ + ip.text() + " on deny list"@,
            };
            let medium = VerdictView {
                group: Group::Reputation,
                rule: "rate_limited"@,
                severity: Severity::Medium,
                detail: "source IP "@ + ip.text() + " exceeded rate quota"@,
            };
            &&& vs.len() == 2 <==> denied && !allowed
            &&& vs.len() == 0 <==> !denied && allowed
            &&& vs.len() <= 2
            &&& denied ==> vs[0] == high
            &&& !allowed ==> vs.last() == medium
        }),
{
}

} // verus!
