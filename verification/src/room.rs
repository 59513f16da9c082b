//! A single chat room: its description, its live subscriber set, and its
//! bounded FIFO mailbox, together with the per-message broadcast fan-out
//! state machine.
//!
//! The room itself never performs delivery. The surrounding event loop drives
//! each fan-out round: [`Room::begin_round`] hands it the oldest mailbox
//! message and a snapshot of the current sinks, the loop attempts delivery to
//! each sink concurrently, and [`Room::finish_round`] prunes exactly the
//! sinks whose attempt failed.

use vstd::prelude::*;

use crate::types::MessageMetaData;
use crate::types::RoomDescription;

verus! {

/// Capacity of a room's mailbox: a producer whose message would exceed it is
/// held back (backpressure) until the broadcast loop drains a slot.
pub const MAILBOX_CAPACITY: usize = 100;

/// The mathematical state of a room: what the contracts of [`Room`] speak of.
/// Subscribers are identified by the id handed out at registration; removal
/// is keyed on that identity alone.
#[verifier::ext_equal]
pub struct RoomModel {
    pub desc: RoomDescription,
    pub subscribers: Seq<u64>,
    pub mailbox: Seq<MessageMetaData>,
}

/// The sinks that failed in one fan-out round, as reported by the delivery
/// attempts handed back to [`Room::finish_round`].
pub open spec fn failed_set(attempts: Seq<DeliveryAttempt>) -> Set<u64> {
    Set::new(
        |id: u64|
            exists|k: int|
                0 <= k < attempts.len() && attempts[k].sink == id && !attempts[k].delivered,
    )
}

/// Whether a sink survives a round in which the sinks in `failed` failed.
pub open spec fn survives(failed: Set<u64>) -> spec_fn(u64) -> bool {
    |id: u64| !failed.contains(id)
}

impl RoomModel {
    /// A freshly created room: no subscribers, an empty mailbox.
    pub open spec fn init(desc: RoomDescription) -> RoomModel {
        RoomModel { desc, subscribers: Seq::empty(), mailbox: Seq::empty() }
    }

    /// Subscriber ids are distinct, so identity-based pruning is unambiguous.
    pub open spec fn wf(self) -> bool {
        forall|i: int, j: int|
            0 <= i < j < self.subscribers.len() ==> self.subscribers[i] != self.subscribers[j]
    }

    /// The mailbox has room for one more message.
    pub open spec fn can_enqueue(self) -> bool {
        self.mailbox.len() < MAILBOX_CAPACITY
    }

    /// A producer's message is appended at the back of the mailbox.
    pub open spec fn enqueue(self, m: MessageMetaData) -> RoomModel {
        RoomModel { mailbox: self.mailbox.push(m), ..self }
    }

    /// The message a fan-out round broadcasts: the oldest one in the mailbox.
    pub open spec fn head(self) -> MessageMetaData {
        self.mailbox.first()
    }

    /// The mailbox after a round has taken its message.
    pub open spec fn dequeue(self) -> RoomModel {
        RoomModel { mailbox: self.mailbox.drop_first(), ..self }
    }

    /// The sinks a round delivers to: every currently registered subscriber.
    pub open spec fn round_targets(self) -> Seq<u64> {
        self.subscribers
    }

    /// A new sink joins at the back of the subscriber set.
    pub open spec fn subscribe(self, id: u64) -> RoomModel {
        RoomModel { subscribers: self.subscribers.push(id), ..self }
    }

    /// After a round, exactly the sinks that failed are removed; every other
    /// subscriber survives, in order.
    pub open spec fn prune(self, failed: Set<u64>) -> RoomModel {
        RoomModel { subscribers: self.subscribers.filter(survives(failed)), ..self }
    }
}

/// One room of the chat relay. All mutation goes through the methods below:
/// sessions append to the mailbox and register sinks, and the broadcast loop
/// alone drains the mailbox and removes sinks.
pub struct Room {
    desc: RoomDescription,
    subscribers: Vec<u64>,
    mailbox: Vec<MessageMetaData>,
    next_sink_id: u64,
}

/// What one fan-out round has to do: deliver `msg` to every sink in
/// `targets`. The snapshot decouples delivery from the room's own state, so
/// a slow delivery never blocks producers or new subscribers.
#[derive(Debug)]
pub struct FanOutRound {
    pub msg: MessageMetaData,
    pub targets: Vec<u64>,
}

/// The reported outcome of one delivery attempt of a fan-out round.
#[derive(Clone, Copy, Debug, PartialEq, Eq, Structural)]
pub struct DeliveryAttempt {
    pub sink: u64,
    pub delivered: bool,
}

impl View for Room {
    type V = RoomModel;

    closed spec fn view(&self) -> RoomModel {
        RoomModel {
            desc: self.desc,
            subscribers: self.subscribers@,
            mailbox: self.mailbox@,
        }
    }
}

impl Room {
    /// Every handed-out subscriber id is below the counter, so fresh ids
    /// never collide with live ones.
    pub closed spec fn inv(self) -> bool {
        &&& forall|i: int|
            0 <= i < self.subscribers@.len() ==> self.subscribers@[i] < self.next_sink_id
        &&& self@.wf()
    }

    /// How many sink ids the room has handed out so far; ids are never
    /// reused, so this only grows.
    pub closed spec fn ids_created(self) -> nat {
        self.next_sink_id as nat
    }

    /// A fresh subscriber id is still available: the id counter, a machine
    /// limit no run of the process can realistically reach, is not exhausted.
    pub open spec fn ids_left(self) -> bool {
        self.ids_created() < u64::MAX
    }

    /// The room's internal invariant carries the model-level one.
    pub proof fn lemma_inv_wf(&self)
        requires
            self.inv(),
        ensures
            self@.wf(),
    {
    }

    /// A new room starts with no subscribers and an empty mailbox.
    pub fn new(desc: RoomDescription) -> (r: Room)
        ensures
            r@ == RoomModel::init(desc),
            r.inv(),
            r.ids_created() == 0,
    {
        let r = Room { desc, subscribers: Vec::new(), mailbox: Vec::new(), next_sink_id: 0 };
        proof {
            assert(r@ =~= RoomModel::init(r@.desc));
        }
        r
    }

    /// True iff this room's name is `name`.
    pub fn has_name(&self, name: &String) -> (r: bool)
        ensures
            r == (self@.desc.name@ == name@),
    {
        self.desc.name == *name
    }

    /// A copy of the room's description, for registry snapshots.
    pub fn description(&self) -> (r: RoomDescription)
        ensures
            r == self@.desc,
    {
        self.desc.clone()
    }

    /// Registers a new outbound sink and returns its identity. The sink is
    /// visible to every subsequent fan-out round; rounds already snapshotted
    /// are unaffected.
    pub fn subscribe(&mut self) -> (id: u64)
        requires
            old(self).inv(),
            old(self).ids_left(),
        ensures
            final(self)@ == old(self)@.subscribe(id),
            !old(self)@.subscribers.contains(id),
            final(self).inv(),
            final(self).ids_created() == old(self).ids_created() + 1,
    {
        let id = self.next_sink_id;
        self.next_sink_id = self.next_sink_id + 1;
        self.subscribers.push(id);
        id
    }

    /// Accepts a producer's message iff the mailbox has a free slot, and
    /// reports whether it did: a full mailbox leaves the room unchanged and
    /// the message with its producer (backpressure), never on the floor.
    pub fn try_enqueue(&mut self, msg: MessageMetaData) -> (ok: bool)
        requires
            old(self).inv(),
        ensures
            ok == old(self)@.can_enqueue(),
            ok ==> final(self)@ == old(self)@.enqueue(msg),
            !ok ==> *final(self) == *old(self),
            final(self).inv(),
            final(self).ids_created() == old(self).ids_created(),
    {
        if self.mailbox.len() < MAILBOX_CAPACITY {
            self.mailbox.push(msg);
            true
        } else {
            false
        }
    }

    /// Starts a fan-out round: takes the oldest message out of the mailbox
    /// and snapshots the current subscriber set as the round's targets.
    /// Returns nothing iff the mailbox is empty, leaving the room unchanged.
    pub fn begin_round(&mut self) -> (r: Option<FanOutRound>)
        requires
            old(self).inv(),
        ensures
            r is Some <==> old(self)@.mailbox.len() > 0,
            r is None ==> *final(self) == *old(self),
            r matches Some(round) ==> {
                &&& round.msg == old(self)@.head()
                &&& round.targets@ == old(self)@.round_targets()
                &&& final(self)@ == old(self)@.dequeue()
            },
            final(self).inv(),
            final(self).ids_created() == old(self).ids_created(),
    {
        if self.mailbox.len() == 0 {
            return None;
        }
        let msg = self.mailbox.remove(0);
        let mut targets: Vec<u64> = Vec::new();
        let n = self.subscribers.len();
        let mut i: usize = 0;
        while i < n
            invariant
                i <= n,
                n == self.subscribers@.len(),
                targets@ == self.subscribers@.subrange(0, i as int),
            decreases n - i,
        {
            targets.push(self.subscribers[i]);
            i = i + 1;
        }
        proof {
            assert(targets@ =~= self.subscribers@);
            assert(self@ =~= old(self)@.dequeue());
        }
        Some(FanOutRound { msg, targets })
    }

    /// Ends a fan-out round: removes exactly the sinks whose delivery attempt
    /// failed. Removal is identity-based, so sinks registered after the
    /// round's snapshot survive, and a failing sink never disturbs delivery
    /// to the others.
    pub fn finish_round(&mut self, attempts: &Vec<DeliveryAttempt>)
        requires
            old(self).inv(),
        ensures
            final(self)@ == old(self)@.prune(failed_set(attempts@)),
            final(self).inv(),
            final(self).ids_created() == old(self).ids_created(),
    {
        let ghost failed = failed_set(attempts@);
        let ghost pred = survives(failed);
        let mut kept: Vec<u64> = Vec::new();
        let n = self.subscribers.len();
        let mut i: usize = 0;
        while i < n
            invariant
                i <= n,
                *self == *old(self),
                self.inv(),
                n == self.subscribers@.len(),
                pred == survives(failed),
                failed == failed_set(attempts@),
                kept@ == self.subscribers@.subrange(0, i as int).filter(pred),
                forall|k: int|
                    0 <= k < kept@.len() ==> self.subscribers@.subrange(0, i as int).contains(
                        #[trigger] kept@[k],
                    ),
                forall|k: int, l: int| 0 <= k < l < kept@.len() ==> kept@[k] != kept@[l],
            decreases n - i,
        {
            let ghost prefix = self.subscribers@.subrange(0, i as int);
            let id = self.subscribers[i];
            let keep = !sink_failed(attempts, id);
            proof {
                assert(pred(id) == !failed.contains(id));
                lemma_filter_one_more(self.subscribers@, pred, i as int);
                assert forall|k: int| 0 <= k < kept@.len() implies kept@[k] != id by {
                    assert(prefix.contains(kept@[k]));
                    let m = choose|m: int| 0 <= m < prefix.len() && prefix[m] == kept@[k];
                    assert(self.subscribers@[m] == kept@[k]);
                    assert(self@.wf());
                    assert(self@.subscribers[m] != self@.subscribers[i as int]);
                }
            }
            if keep {
                kept.push(id);
            }
            i = i + 1;
            proof {
                assert forall|k: int| 0 <= k < kept@.len() implies self.subscribers@.subrange(
                    0,
                    i as int,
                ).contains(#[trigger] kept@[k]) by {
                    if k < kept@.len() - 1 || prefix.filter(pred).len() == kept@.len() {
                        assert(prefix.contains(kept@[k]));
                        let m = choose|m: int| 0 <= m < prefix.len() && prefix[m] == kept@[k];
                        assert(self.subscribers@.subrange(0, i as int)[m] == kept@[k]);
                    } else {
                        assert(self.subscribers@.subrange(0, i as int)[i - 1] == kept@[k]);
                    }
                }
            }
        }
        proof {
            assert(self.subscribers@.subrange(0, n as int) =~= self.subscribers@);
        }
        let ghost before = self@;
        let ghost kept_view = kept@;
        self.subscribers = kept;
        proof {
            assert(self@ =~= before.prune(failed));
            assert forall|k: int| 0 <= k < self.subscribers@.len() implies self.subscribers@[k]
                < self.next_sink_id by {
                assert(self.subscribers@[k] == kept_view[k]);
                assert(old(self).subscribers@.contains(kept_view[k]));
                let m = choose|m: int|
                    0 <= m < old(self).subscribers@.len() && old(self).subscribers@[m]
                        == kept_view[k];
                assert(old(self).subscribers@[m] < old(self).next_sink_id);
            }
        }
    }
}

/// True iff some attempt of this round reported a failed delivery to `id`.
fn sink_failed(attempts: &Vec<DeliveryAttempt>, id: u64) -> (r: bool)
    ensures
        r == failed_set(attempts@).contains(id),
{
    let n = attempts.len();
    let mut i: usize = 0;
    while i < n
        invariant
            i <= n,
            n == attempts@.len(),
            forall|k: int| 0 <= k < i ==> attempts@[k].sink != id || attempts@[k].delivered,
        decreases n - i,
    {
        if attempts[i].sink == id && !attempts[i].delivered {
            return true;
        }
        i = i + 1;
    }
    false
}

/// Extending a prefix by one element extends its filtered image by that
/// element exactly when the predicate holds of it.
proof fn lemma_filter_one_more<A>(s: Seq<A>, pred: spec_fn(A) -> bool, i: int)
    requires
        0 <= i < s.len(),
    ensures
        s.subrange(0, i + 1).filter(pred) == if pred(s[i]) {
            s.subrange(0, i).filter(pred).push(s[i])
        } else {
            s.subrange(0, i).filter(pred)
        },
{
    reveal(Seq::filter);
    let longer = s.subrange(0, i + 1);
    assert(longer.drop_last() =~= s.subrange(0, i));
    assert(longer.last() == s[i]);
}

} // verus!
