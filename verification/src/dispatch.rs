//! The application-level orchestration: room lifecycle operations over the
//! store, and the dispatch of one inbound message into a delivery run, with
//! a disconnected peer folded back into room membership.

use vstd::prelude::*;
use crate::domain::{
    DeliveryPlan, DispatchError, MessageHandler, Participant, Room, RoomError, RoomId, RoomOp,
    lemma_apply_op_preserves_wf,
};
use crate::registry::{InMemoryRoomRepo, InfrastructureError};
use crate::sender::MessageSenderError;

verus! {

/// A request to open a room: a display name and a participant limit.
/// A capacity of zero is accepted and makes the room permanently unjoinable.
#[derive(Debug)]
pub struct CreateRoomRequest {
    pub name: String,
    pub capacity: usize,
}

/// The application-level failure taxonomy: the room is absent, the room
/// refused the operation, the store failed, or a delivery failed.
#[derive(Debug)]
pub enum RoomAppError {
    RoomNotFound { room_id: RoomId },
    RoomDomain(RoomError),
    RoomRepositoryError(InfrastructureError),
    MessageSenderError(MessageSenderError),
}

impl RoomAppError {
    /// The HTTP status such a failure maps to at the boundary.
    pub fn status_code(&self) -> (code: u16)
        ensures
            code == (match *self {
                RoomAppError::RoomNotFound { .. } => 404u16,
                RoomAppError::RoomDomain(e) => match e {
                    RoomError::RoomFull { .. } => 400u16,
                    RoomError::NotOwner { .. } => 401u16,
                    RoomError::NotParticipant { .. } => 400u16,
                },
                RoomAppError::RoomRepositoryError(_) => 500u16,
                RoomAppError::MessageSenderError(_) => 500u16,
            }),
    {
        match self {
            RoomAppError::RoomNotFound { .. } => 404,
            RoomAppError::RoomDomain(e) => match e {
                RoomError::RoomFull { .. } => 400,
                RoomError::NotOwner { .. } => 401,
                RoomError::NotParticipant { .. } => 400,
            },
            RoomAppError::RoomRepositoryError(_) => 500,
            RoomAppError::MessageSenderError(_) => 500,
        }
    }
}

/// A dispatch failure: an application failure, or the pluggable handler's
/// own error, carried through so that no handler failure is swallowed.
#[derive(Debug)]
pub enum HandleMessageError<E> {
    App(RoomAppError),
    Handler(E),
}

/// Returns a snapshot of every room in the store.
pub fn list_rooms(repo: &InMemoryRoomRepo) -> (rooms: Vec<Room>)
    ensures
        rooms@.len() == repo.spec_rooms().len(),
        forall|i: int| 0 <= i < rooms@.len() ==> (#[trigger] rooms@[i])@ == repo.spec_rooms()[i],
{
    repo.get_all()
}

/// Opens a room: a fresh identity, the creator recorded as owner and not
/// auto-joined, and the new room stored under its id.
pub fn open_room(
    repo: &mut InMemoryRoomRepo,
    name: String,
    capacity: usize,
    participant: Participant,
) -> (room: Room)
    requires
        old(repo).wf(),
    ensures
        final(repo).wf(),
        room@.name == name@,
        room@.capacity == capacity as nat,
        room@.created_by == participant,
        room@.participants == Seq::<Participant>::empty(),
        final(repo).spec_get(room@.id) == Some(room@),
        forall|other: RoomId|
            other != room@.id ==> final(repo).spec_get(other) == old(repo).spec_get(other),
{
    let room = Room::new(name, capacity, participant);
    repo.save(room)
}

/// Closes a room: only the owner may; the room is then removed from the
/// store, and a close by anyone else leaves the store untouched.
pub fn close_room(repo: &mut InMemoryRoomRepo, room_id: RoomId, participant: Participant) -> (r:
    Result<(), RoomAppError>)
    requires
        old(repo).wf(),
    ensures
        final(repo).wf(),
        match old(repo).spec_get(room_id) {
            None => (r == Err::<(), RoomAppError>(RoomAppError::RoomNotFound { room_id }) && *final(repo) == *old(repo)),
            Some(m) => if m.created_by == participant {
                (r == Ok::<(), RoomAppError>(()) && final(repo).spec_get(room_id) is None && (
                forall|other: RoomId|
                    other != room_id ==> final(repo).spec_get(other) == old(repo).spec_get(other)))
            } else {
                (r == Err::<(), RoomAppError>(
                    RoomAppError::RoomDomain(RoomError::NotOwner { room_id, participant }),
                ) && *final(repo) == *old(repo))
            },
        },
{
    let room = match repo.get(room_id) {
        Some(room) => room,
        None => {
            return Err(RoomAppError::RoomNotFound { room_id });
        },
    };
    match room.close(participant) {
        Ok(()) => {
            repo.delete(room_id);
            Ok(())
        },
        Err(e) => Err(RoomAppError::RoomDomain(e)),
    }
}

/// Joins a participant to a room: refused when the room is absent or full,
/// appended and stored otherwise.
pub fn join_room(repo: &mut InMemoryRoomRepo, room_id: RoomId, participant: Participant) -> (r:
    Result<(), RoomAppError>)
    requires
        old(repo).wf(),
    ensures
        final(repo).wf(),
        match old(repo).spec_get(room_id) {
            None => (r == Err::<(), RoomAppError>(RoomAppError::RoomNotFound { room_id }) && *final(repo) == *old(repo)),
            Some(m) => if m.full() {
                (r == Err::<(), RoomAppError>(
                    RoomAppError::RoomDomain(RoomError::RoomFull { room_id }),
                ) && *final(repo) == *old(repo))
            } else {
                (r == Ok::<(), RoomAppError>(()) && final(repo).spec_get(room_id) == Some(
                    m.apply_op(RoomOp::Join(participant)),
                ) && (forall|other: RoomId|
                    other != room_id ==> final(repo).spec_get(other) == old(repo).spec_get(other)))
            },
        },
{
    let mut room = match repo.get(room_id) {
        Some(room) => room,
        None => {
            return Err(RoomAppError::RoomNotFound { room_id });
        },
    };
    match room.join(participant) {
        Ok(()) => {
            repo.save(room);
            Ok(())
        },
        Err(e) => Err(RoomAppError::RoomDomain(e)),
    }
}

/// Removes a participant from a room and stores the result; removing an
/// absent participant succeeds and changes nothing in the member list.
pub fn leave_room(repo: &mut InMemoryRoomRepo, room_id: RoomId, participant: Participant) -> (r:
    Result<(), RoomAppError>)
    requires
        old(repo).wf(),
    ensures
        final(repo).wf(),
        match old(repo).spec_get(room_id) {
            None => (r == Err::<(), RoomAppError>(RoomAppError::RoomNotFound { room_id }) && *final(repo) == *old(repo)),
            Some(m) => (r == Ok::<(), RoomAppError>(()) && final(repo).spec_get(room_id) == Some(
                m.apply_op(RoomOp::Leave(participant)),
            ) && (forall|other: RoomId|
                other != room_id ==> final(repo).spec_get(other) == old(repo).spec_get(other))),
        },
{
    let mut room = match repo.get(room_id) {
        Some(room) => room,
        None => {
            return Err(RoomAppError::RoomNotFound { room_id });
        },
    };
    let ghost m = room@;
    room.leave(participant);
    proof {
        lemma_apply_op_preserves_wf(m, RoomOp::Leave(participant));
    }
    repo.save(room);
    Ok(())
}

/// Dispatches one inbound message: loads the room, gates on the sender's
/// membership, lets the handler classify the message, and validates and
/// expands its decision into a delivery plan.
pub fn plan_message<In, H: MessageHandler<In>>(
    repo: &InMemoryRoomRepo,
    handler: &H,
    room_id: RoomId,
    from: Participant,
    msg: In,
) -> (r: Result<DeliveryPlan<H::Outbound>, HandleMessageError<H::Err>>)
    requires
        repo.wf(),
    ensures
        repo.spec_get(room_id) is None ==> (r matches Err(HandleMessageError::App(e)) && e == (
        RoomAppError::RoomNotFound { room_id })),
        match repo.spec_get(room_id) {
            Some(m) => {
                &&& !m.is_member(from) ==> (r matches Err(HandleMessageError::App(e)) && e == (
                RoomAppError::RoomDomain(
                    RoomError::NotParticipant { room_id, participant: from },
                )))
                &&& (r matches Ok(DeliveryPlan::Deliver { recipients, .. }) ==> (m.is_member(from)
                    && (forall|i: int|
                    0 <= i < recipients@.len() ==> m.is_member(#[trigger] recipients@[i]))))
                &&& (r matches Ok(DeliveryPlan::NoDelivery) ==> m.is_member(from))
                &&& m.is_member(from) ==> (r matches Err(HandleMessageError::App(e)) ==> (e matches
                RoomAppError::RoomDomain(d) && d matches RoomError::NotParticipant {
                    room_id: rid,
                    participant,
                } && rid == room_id && !m.is_member(participant)))
            },
            None => true,
        },
{
    let room = match repo.get(room_id) {
        Some(room) => room,
        None => {
            return Err(HandleMessageError::App(RoomAppError::RoomNotFound { room_id }));
        },
    };
    match room.handle_message(handler, from, msg) {
        Ok(plan) => Ok(plan),
        Err(DispatchError::Room(e)) => Err(HandleMessageError::App(RoomAppError::RoomDomain(e))),
        Err(DispatchError::Handler(e)) => Err(HandleMessageError::Handler(e)),
    }
}

/// One delivery run: the recipients of a plan, attempted in order. The
/// caller performs each write; the run decides what a failure means — a
/// disconnected peer is evicted from the room and the run goes on, any other
/// failure aborts the run.
pub struct DeliveryRun {
    room_id: RoomId,
    recipients: Vec<Participant>,
    next: usize,
}

impl DeliveryRun {
    pub closed spec fn wf(self) -> bool {
        self.next <= self.recipients@.len()
    }

    pub closed spec fn spec_room_id(self) -> RoomId {
        self.room_id
    }

    /// The recipients not yet attempted, in delivery order.
    pub closed spec fn pending(self) -> Seq<Participant> {
        self.recipients@.skip(self.next as int)
    }

    pub fn new(room_id: RoomId, recipients: Vec<Participant>) -> (run: DeliveryRun)
        ensures
            run.wf(),
            run.spec_room_id() == room_id,
            run.pending() == recipients@,
    {
        let run = DeliveryRun { room_id, recipients, next: 0 };
        proof {
            assert(run.pending() =~= run.recipients@);
        }
        run
    }

    /// The recipient to attempt next, if any are left.
    pub fn next_recipient(&self) -> (r: Option<Participant>)
        requires
            self.wf(),
        ensures
            match r {
                Some(p) => self.pending().len() > 0 && p == self.pending()[0],
                None => self.pending().len() == 0,
            },
    {
        if self.next < self.recipients.len() {
            Some(self.recipients[self.next])
        } else {
            None
        }
    }

    /// Records that the current recipient was served.
    pub fn record_sent(&mut self)
        requires
            old(self).wf(),
            old(self).pending().len() > 0,
        ensures
            final(self).wf(),
            final(self).spec_room_id() == old(self).spec_room_id(),
            final(self).pending() == old(self).pending().drop_first(),
    {
        let n = self.recipients.len();
        proof {
            assert(self.next < n);
        }
        self.next = self.next + 1;
        proof {
            assert(self.recipients@.skip(self.next as int) =~= old(self).pending().drop_first());
        }
    }

    /// Folds one delivery failure into the run: a disconnected peer is
    /// removed from the room's membership and the run continues with the
    /// remaining recipients; any other failure aborts the run and the store
    /// is left untouched.
    pub fn record_failure(&mut self, repo: &mut InMemoryRoomRepo, error: MessageSenderError) -> (r:
        Result<(), RoomAppError>)
        requires
            old(self).wf(),
            old(repo).wf(),
            old(self).pending().len() > 0,
        ensures
            final(self).wf(),
            final(repo).wf(),
            final(self).spec_room_id() == old(self).spec_room_id(),
            match error {
                MessageSenderError::ParticipantDisconnected { participant } => (match old(repo).spec_get(old(self).spec_room_id()) {
                    None => (r == Err::<(), RoomAppError>(
                        RoomAppError::RoomNotFound { room_id: old(self).spec_room_id() },
                    ) && *final(repo) == *old(repo) && *final(self) == *old(self)),
                    Some(m) => (r == Ok::<(), RoomAppError>(()) && final(repo).spec_get(
                        old(self).spec_room_id(),
                    ) == Some(m.apply_op(RoomOp::Leave(participant))) && (forall|other: RoomId|
                        other != old(self).spec_room_id() ==> final(repo).spec_get(other) == old(repo).spec_get(other)) && final(self).pending() == old(self).pending().drop_first()),
                }),
                _ => (r == Err::<(), RoomAppError>(RoomAppError::MessageSenderError(error))
                    && *final(repo) == *old(repo) && *final(self) == *old(self)),
            },
    {
        match error {
            MessageSenderError::ParticipantDisconnected { participant } => {
                match leave_room(repo, self.room_id, participant) {
                    Ok(()) => {
                        let n = self.recipients.len();
                        proof {
                            assert(self.next < n);
                        }
                        self.next = self.next + 1;
                        proof {
                            assert(self.recipients@.skip(self.next as int) =~= old(self).pending().drop_first());
                        }
                        Ok(())
                    },
                    Err(e) => Err(e),
                }
            },
            _ => Err(RoomAppError::MessageSenderError(error)),
        }
    }
}

} // verus!

