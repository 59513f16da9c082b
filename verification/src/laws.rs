//! The guarantees the relay gives, stated over the models that the exec
//! contracts speak of, so they hold of any sequence of the verified
//! operations however the surrounding tasks interleave them.

use vstd::prelude::*;

use crate::registry::RegistryModel;
use crate::room::DeliveryAttempt;
use crate::room::RoomModel;
use crate::room::failed_set;
use crate::room::survives;
use crate::room::MAILBOX_CAPACITY;
use crate::types::MessageMetaData;
use crate::types::RoomDescription;

verus! {

/// Uniqueness of room creation: of two creations with the same name, in
/// whichever order the registry serializes them, the first to run succeeds
/// and the other must fail; afterwards exactly one registered room carries
/// that name. (`SharedData::create_room` returns true exactly on
/// `can_create`, and on success moves the registry to `create`.)
pub proof fn lemma_create_room_uniqueness(
    reg: RegistryModel,
    d1: RoomDescription,
    d2: RoomDescription,
)
    requires
        reg.wf(),
        reg.can_create(d1),
        d2.name@ == d1.name@,
    ensures
        ({
            let reg1 = reg.create(d1);
            &&& reg1.has_room(d1.name@)
            &&& !reg1.can_create(d2)
            &&& reg1.wf()
            &&& forall|i: int, j: int|
                0 <= i < reg1.rooms.len() && 0 <= j < reg1.rooms.len()
                    && reg1.rooms[i].desc.name@ == d1.name@ && reg1.rooms[j].desc.name@
                    == d1.name@ ==> i == j
        }),
{
    let reg1 = reg.create(d1);
    let fresh = reg1.rooms.len() - 1;
    assert(reg1.rooms[fresh].desc.name@ == d1.name@);
    assert forall|i: int|
        0 <= i < reg1.rooms.len() && reg1.rooms[i].desc.name@ == d1.name@ implies i == fresh by {
        if i < fresh {
            assert(reg.has_room(d1.name@));
        }
    }
    assert forall|i: int, j: int|
        0 <= i < j < reg1.rooms.len() implies reg1.rooms[i].desc.name@
        != reg1.rooms[j].desc.name@ by {
        if j == fresh && reg1.rooms[i].desc.name@ == d1.name@ {
            assert(reg.has_room(d1.name@));
        }
    }
}

/// Rooms are immortal: a creation never hides an existing room, so the set
/// of registered names only grows and a handle once resolved stays valid.
pub proof fn lemma_registry_only_grows(reg: RegistryModel, d: RoomDescription, name: Seq<char>)
    requires
        reg.has_room(name),
    ensures
        reg.create(d).has_room(name),
        reg.create(d).rooms.len() == reg.rooms.len() + 1,
{
    let i = choose|i: int| 0 <= i < reg.rooms.len() && reg.rooms[i].desc.name@ == name;
    assert(reg.create(d).rooms[i].desc.name@ == name);
}

/// Order preservation: with one producer and a subscriber registered before
/// it starts sending, three messages put into an idle room's mailbox are
/// handed to the fan-out rounds exactly in send order, each round addressing
/// that subscriber, and the mailbox is empty again afterwards.
pub proof fn lemma_order_preservation(
    room: RoomModel,
    s: u64,
    m1: MessageMetaData,
    m2: MessageMetaData,
    m3: MessageMetaData,
)
    requires
        room.mailbox.len() == 0,
        room.subscribers.contains(s),
    ensures
        room.can_enqueue(),
        room.enqueue(m1).can_enqueue(),
        room.enqueue(m1).enqueue(m2).can_enqueue(),
        ({
            let full = room.enqueue(m1).enqueue(m2).enqueue(m3);
            let after1 = full.dequeue();
            let after2 = after1.dequeue();
            &&& full.head() == m1 && full.round_targets().contains(s)
            &&& after1.head() == m2 && after1.round_targets().contains(s)
            &&& after2.head() == m3 && after2.round_targets().contains(s)
            &&& after2.dequeue().mailbox.len() == 0
        }),
{
    let full = room.enqueue(m1).enqueue(m2).enqueue(m3);
    assert(full.mailbox =~= seq![m1, m2, m3]);
    assert(full.dequeue().mailbox =~= seq![m2, m3]);
    assert(full.dequeue().dequeue().mailbox =~= seq![m3]);
}

/// Fan-out completeness: the targets of a round are exactly the room's
/// current subscribers, so a message taken from the mailbox is addressed to
/// every one of the N sinks subscribed at that moment.
pub proof fn lemma_fan_out_completeness(room: RoomModel)
    ensures
        room.round_targets() == room.subscribers,
        forall|s: u64| room.subscribers.contains(s) ==> room.round_targets().contains(s),
{
}

/// Fault isolation: after a round in which sink `a`'s delivery failed and
/// sink `b`'s succeeded, pruning removes `a` and keeps `b`, so `b` is a
/// target of every later round and `a` of none (until it resubscribes).
pub proof fn lemma_fault_isolation(
    room: RoomModel,
    attempts: Seq<DeliveryAttempt>,
    a: u64,
    b: u64,
)
    requires
        room.subscribers.contains(a),
        room.subscribers.contains(b),
        failed_set(attempts).contains(a),
        !failed_set(attempts).contains(b),
    ensures
        ({
            let after = room.prune(failed_set(attempts));
            &&& !after.subscribers.contains(a)
            &&& after.subscribers.contains(b)
            &&& !after.round_targets().contains(a)
            &&& after.round_targets().contains(b)
        }),
{
    let failed = failed_set(attempts);
    let pred = survives(failed);
    let after = room.prune(failed);
    assert forall|k: int| 0 <= k < after.subscribers.len() implies after.subscribers[k] != a by {
        room.subscribers.lemma_filter_pred(pred, k);
    }
    let bi = choose|bi: int| 0 <= bi < room.subscribers.len() && room.subscribers[bi] == b;
    room.subscribers.lemma_filter_contains(pred, bi);
}

/// Backpressure: a mailbox filled to capacity accepts nothing, so the
/// producer's send is held back rather than a message dropped; as soon as
/// the broadcast loop drains one slot the held-back message goes through and
/// lands at the back of the queue, behind everything sent before it.
pub proof fn lemma_backpressure(room: RoomModel, m: MessageMetaData)
    requires
        room.mailbox.len() == MAILBOX_CAPACITY,
    ensures
        !room.can_enqueue(),
        room.dequeue().can_enqueue(),
        room.dequeue().mailbox == room.mailbox.drop_first(),
        room.dequeue().enqueue(m).mailbox.last() == m,
        room.dequeue().enqueue(m).mailbox.len() == MAILBOX_CAPACITY,
{
}

} // verus!
