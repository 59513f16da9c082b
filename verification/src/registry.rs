//! The room registry: a mapping from room name to room. It enforces name
//! uniqueness, serializes creation and lookup, and is the shared handle
//! through which sessions and the broadcast loop reach a room.

use vstd::prelude::*;

use crate::room::DeliveryAttempt;
use crate::room::FanOutRound;
use crate::room::Room;
use crate::room::RoomModel;
use crate::types::ChatError;
use crate::types::MessageMetaData;
use crate::types::RoomDescription;

verus! {

/// The mathematical state of the registry: the rooms it holds, in creation
/// order. Room names are the keys; [`RegistryModel::wf`] says they are
/// unique.
#[verifier::ext_equal]
pub struct RegistryModel {
    pub rooms: Seq<RoomModel>,
}

impl RegistryModel {
    /// The descriptions of the registered rooms, in creation order.
    pub open spec fn descriptions(self) -> Seq<RoomDescription> {
        self.rooms.map_values(|r: RoomModel| r.desc)
    }

    /// Whether some registered room is named `name`.
    pub open spec fn has_room(self, name: Seq<char>) -> bool {
        exists|i: int| 0 <= i < self.rooms.len() && self.rooms[i].desc.name@ == name
    }

    /// Creation succeeds exactly when the name is still free.
    pub open spec fn can_create(self, desc: RoomDescription) -> bool {
        !self.has_room(desc.name@)
    }

    /// A successful creation appends a fresh room under the description.
    pub open spec fn create(self, desc: RoomDescription) -> RegistryModel {
        RegistryModel { rooms: self.rooms.push(RoomModel::init(desc)) }
    }

    /// Room names are unique and every room is well formed.
    pub open spec fn wf(self) -> bool {
        &&& forall|i: int, j: int|
            0 <= i < j < self.rooms.len() ==> self.rooms[i].desc.name@ != self.rooms[j].desc.name@
        &&& forall|i: int| 0 <= i < self.rooms.len() ==> (#[trigger] self.rooms[i]).wf()
    }
}

/// A live subscription, as handed to a session by [`SharedData::chat`]: which
/// room it joined and the identity of its outbound sink within that room.
#[derive(Clone, Copy, Debug, PartialEq, Eq, Structural)]
pub struct Subscription {
    pub room: usize,
    pub sink: u64,
}

/// The registry of all rooms, shared by every session. All operations on a
/// room go through it by room index, which stands for the shared room handle
/// the registry hands out.
pub struct SharedData {
    rooms: Vec<Room>,
}

impl View for SharedData {
    type V = RegistryModel;

    closed spec fn view(&self) -> RegistryModel {
        RegistryModel { rooms: self.rooms@.map_values(|r: Room| r@) }
    }
}

impl SharedData {
    /// Room names are unique and every room's internal invariant holds.
    pub closed spec fn inv(self) -> bool {
        &&& forall|i: int| 0 <= i < self.rooms@.len() ==> (#[trigger] self.rooms@[i]).inv()
        &&& forall|i: int, j: int|
            0 <= i < j < self.rooms@.len() ==> self.rooms@[i]@.desc.name@
                != self.rooms@[j]@.desc.name@
    }

    /// How many sink ids the room with handle `i` has handed out so far.
    pub closed spec fn ids_created_at(self, i: int) -> nat {
        self.rooms@[i].ids_created()
    }

    /// Every room can still hand out a fresh sink id: no room's id counter, a
    /// machine limit no run of the process can realistically reach, is
    /// exhausted.
    pub open spec fn ids_left(self) -> bool {
        forall|i: int|
            0 <= i < self@.rooms.len() ==> #[trigger] self.ids_created_at(i) < u64::MAX
    }

    /// The registry's invariant carries the model-level one.
    pub proof fn lemma_inv_wf(&self)
        requires
            self.inv(),
        ensures
            self@.wf(),
    {
        assert forall|i: int| 0 <= i < self@.rooms.len() implies (#[trigger] self@.rooms[i]).wf() by {
            self.rooms@[i].lemma_inv_wf();
        }
    }

    /// True iff some registered room is named `name`.
    fn contains_name(&self, name: &String) -> (r: bool)
        ensures
            r == self@.has_room(name@),
    {
        let n = self.rooms.len();
        let mut i: usize = 0;
        while i < n
            invariant
                i <= n,
                n == self.rooms@.len(),
                forall|k: int| 0 <= k < i ==> self.rooms@[k]@.desc.name@ != name@,
            decreases n - i,
        {
            if self.rooms[i].has_name(name) {
                proof {
                    assert(self@.rooms[i as int].desc.name@ == name@);
                }
                return true;
            }
            i = i + 1;
        }
        proof {
            assert forall|k: int| 0 <= k < self@.rooms.len() implies self@.rooms[k].desc.name@
                != name@ by {
                assert(self.rooms@[k]@.desc.name@ != name@);
            }
        }
        false
    }

    /// Inserts a new room under `desc.name` iff no room with that name
    /// exists yet, and reports whether it did. A failed creation changes
    /// nothing; a successful one makes the room visible to every later
    /// lookup, and never hides or alters an existing room.
    pub fn create_room(&mut self, desc: RoomDescription) -> (r: bool)
        requires
            old(self).inv(),
        ensures
            r == old(self)@.can_create(desc),
            r ==> final(self)@ == old(self)@.create(desc),
            !r ==> *final(self) == *old(self),
            final(self).inv(),
            forall|i: int|
                0 <= i < old(self)@.rooms.len() ==> final(self).ids_created_at(i) == old(
                    self,
                ).ids_created_at(i),
            r ==> final(self).ids_created_at(old(self)@.rooms.len() as int) == 0,
    {
        if self.contains_name(&desc.name) {
            false
        } else {
            let ghost before = self@;
            let room = Room::new(desc);
            self.rooms.push(room);
            proof {
                assert(self@.rooms =~= before.rooms.push(room@));
                assert forall|i: int, j: int|
                    0 <= i < j < self.rooms@.len() implies self.rooms@[i]@.desc.name@
                    != self.rooms@[j]@.desc.name@ by {
                    if j == self.rooms@.len() - 1 {
                        assert(before.rooms[i].desc.name@ != desc.name@) by {
                            if before.rooms[i].desc.name@ == desc.name@ {
                                assert(before.has_room(desc.name@));
                            }
                        }
                    }
                }
            }
            true
        }
    }

    /// Returns the handle of the room named `room_name`, or reports
    /// `RoomDoesNotExist` carrying that name iff no such room is registered.
    pub fn get_room(&self, room_name: &String) -> (r: Result<usize, ChatError>)
        ensures
            r is Ok <==> self@.has_room(room_name@),
            r matches Ok(i) ==> i < self@.rooms.len() && self@.rooms[i as int].desc.name@
                == room_name@,
            r matches Err(e) ==> (e matches ChatError::RoomDoesNotExist(n) && n@ == room_name@),
    {
        let n = self.rooms.len();
        let mut i: usize = 0;
        while i < n
            invariant
                i <= n,
                n == self.rooms@.len(),
                forall|k: int| 0 <= k < i ==> self.rooms@[k]@.desc.name@ != room_name@,
            decreases n - i,
        {
            if self.rooms[i].has_name(room_name) {
                proof {
                    assert(self@.rooms[i as int].desc.name@ == room_name@);
                }
                return Ok(i);
            }
            i = i + 1;
        }
        proof {
            assert forall|k: int| 0 <= k < self@.rooms.len() implies self@.rooms[k].desc.name@
                != room_name@ by {
                assert(self.rooms@[k]@.desc.name@ != room_name@);
            }
        }
        Err(ChatError::RoomDoesNotExist(room_name.clone()))
    }

    /// A snapshot of every room's description, in creation order; under the
    /// invariant their names are pairwise distinct, so the snapshot is the
    /// name-to-description mapping.
    pub fn get_rooms(&self) -> (r: Vec<RoomDescription>)
        ensures
            r@ == self@.descriptions(),
    {
        let n = self.rooms.len();
        let mut out: Vec<RoomDescription> = Vec::new();
        let mut i: usize = 0;
        while i < n
            invariant
                i <= n,
                n == self.rooms@.len(),
                out@ == self@.descriptions().subrange(0, i as int),
            decreases n - i,
        {
            out.push(self.rooms[i].description());
            proof {
                assert(out@ =~= self@.descriptions().subrange(0, i + 1 as int));
            }
            i = i + 1;
        }
        proof {
            assert(out@ =~= self@.descriptions());
        }
        out
    }

    /// Opens a session against the room named `room_name`: registers a new
    /// outbound sink there and hands back the subscription, or reports
    /// `RoomDoesNotExist` iff the name resolves to nothing, in which case the
    /// registry is untouched and no session starts.
    pub fn chat(&mut self, room_name: &String) -> (r: Result<Subscription, ChatError>)
        requires
            old(self).inv(),
            old(self).ids_left(),
        ensures
            final(self).inv(),
            r is Ok <==> old(self)@.has_room(room_name@),
            r matches Err(e) ==> *final(self) == *old(self) && (e
                matches ChatError::RoomDoesNotExist(n) && n@ == room_name@),
            r matches Ok(sub) ==> {
                &&& (sub.room as int) < old(self)@.rooms.len()
                &&& old(self)@.rooms[sub.room as int].desc.name@ == room_name@
                &&& !old(self)@.rooms[sub.room as int].subscribers.contains(sub.sink)
                &&& final(self)@.rooms == old(self)@.rooms.update(
                    sub.room as int,
                    old(self)@.rooms[sub.room as int].subscribe(sub.sink),
                )
                &&& final(self).ids_created_at(sub.room as int) == old(self).ids_created_at(
                    sub.room as int,
                ) + 1
                &&& forall|j: int|
                    0 <= j < old(self)@.rooms.len() && j != sub.room
                        ==> final(self).ids_created_at(j) == old(self).ids_created_at(j)
            },
    {
        match self.get_room(room_name) {
            Err(e) => Err(e),
            Ok(i) => {
                let ghost before = self@;
                proof {
                    assert(self.ids_created_at(i as int) < u64::MAX);
                }
                let room = &mut self.rooms[i];
                let sink = room.subscribe();
                proof {
                    assert(self@.rooms =~= before.rooms.update(
                        i as int,
                        before.rooms[i as int].subscribe(sink),
                    ));
                }
                Ok(Subscription { room: i, sink })
            },
        }
    }

    /// A session's inbound forwarding: appends one client message to the
    /// room's mailbox iff a slot is free, and reports whether it did. A full
    /// mailbox leaves everything unchanged and the message with the caller
    /// (backpressure): no message is silently dropped.
    pub fn enqueue_message(&mut self, room: usize, msg: MessageMetaData) -> (ok: bool)
        requires
            old(self).inv(),
            room < old(self)@.rooms.len(),
        ensures
            final(self).inv(),
            forall|j: int|
                0 <= j < old(self)@.rooms.len() ==> final(self).ids_created_at(j) == old(
                    self,
                ).ids_created_at(j),
            ok == old(self)@.rooms[room as int].can_enqueue(),
            ok ==> final(self)@.rooms == old(self)@.rooms.update(
                room as int,
                old(self)@.rooms[room as int].enqueue(msg),
            ),
            !ok ==> final(self)@ == old(self)@,
    {
        let ghost before = self@;
        let r = &mut self.rooms[room];
        let ok = r.try_enqueue(msg);
        proof {
            if ok {
                assert(self@.rooms =~= before.rooms.update(
                    room as int,
                    before.rooms[room as int].enqueue(msg),
                ));
            } else {
                assert(self.rooms@ =~= old(self).rooms@);
                assert(self@ =~= old(self)@);
            }
        }
        ok
    }

    /// The broadcast loop's drain step: takes the oldest mailbox message of
    /// the room and the snapshot of its current sinks, or nothing iff the
    /// mailbox is empty.
    pub fn begin_round(&mut self, room: usize) -> (r: Option<FanOutRound>)
        requires
            old(self).inv(),
            room < old(self)@.rooms.len(),
        ensures
            final(self).inv(),
            forall|j: int|
                0 <= j < old(self)@.rooms.len() ==> final(self).ids_created_at(j) == old(
                    self,
                ).ids_created_at(j),
            r is Some <==> old(self)@.rooms[room as int].mailbox.len() > 0,
            r is None ==> final(self)@ == old(self)@,
            r matches Some(round) ==> {
                &&& round.msg == old(self)@.rooms[room as int].head()
                &&& round.targets@ == old(self)@.rooms[room as int].round_targets()
                &&& final(self)@.rooms == old(self)@.rooms.update(
                    room as int,
                    old(self)@.rooms[room as int].dequeue(),
                )
            },
    {
        let ghost before = self@;
        let r = &mut self.rooms[room];
        let round = r.begin_round();
        proof {
            if round is Some {
                assert(self@.rooms =~= before.rooms.update(
                    room as int,
                    before.rooms[room as int].dequeue(),
                ));
            } else {
                assert(self.rooms@ =~= old(self).rooms@);
                assert(self@ =~= old(self)@);
            }
        }
        round
    }

    /// The broadcast loop's reconciliation step: removes from the room
    /// exactly the sinks whose delivery attempt in the round failed.
    pub fn finish_round(&mut self, room: usize, attempts: &Vec<DeliveryAttempt>)
        requires
            old(self).inv(),
            room < old(self)@.rooms.len(),
        ensures
            final(self).inv(),
            forall|j: int|
                0 <= j < old(self)@.rooms.len() ==> final(self).ids_created_at(j) == old(
                    self,
                ).ids_created_at(j),
            final(self)@.rooms == old(self)@.rooms.update(
                room as int,
                old(self)@.rooms[room as int].prune(crate::room::failed_set(attempts@)),
            ),
    {
        let ghost before = self@;
        let r = &mut self.rooms[room];
        r.finish_round(attempts);
        proof {
            assert(self@.rooms =~= before.rooms.update(
                room as int,
                before.rooms[room as int].prune(crate::room::failed_set(attempts@)),
            ));
        }
    }
}

impl Default for SharedData {
    /// A fresh registry holds no rooms.
    fn default() -> (r: Self)
        ensures
            r@.rooms == Seq::<RoomModel>::empty(),
            r.inv(),
            r.ids_left(),
    {
        let r = SharedData { rooms: Vec::new() };
        proof {
            assert(r@.rooms =~= Seq::<RoomModel>::empty());
        }
        r
    }
}

} // verus!
