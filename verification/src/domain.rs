//! The room entity: membership, capacity and ownership rules, and the routing
//! of one inbound message into zero or more outbound deliveries.

use vstd::prelude::*;

verus! {

/// An opaque participant identity; equality is value equality.
#[derive(Clone, Copy, PartialEq, Eq, Hash, Debug, Structural)]
pub struct Participant(pub u128);

/// An opaque room identity, same shape as a participant identity.
#[derive(Clone, Copy, PartialEq, Eq, Hash, Debug, Structural)]
pub struct RoomId(pub u128);

/// Relies on `uuid::Uuid::new_v4`: a freshly generated random identifier.
/// The value is random, so nothing is promised of it.
#[verifier::external_body]
fn fresh_uuid() -> u128 {
    uuid::Uuid::new_v4().as_u128()
}

/// Relies on `chrono::Utc::now` for the current wall-clock time, read as
/// milliseconds since the Unix epoch. The value depends on the clock, so
/// nothing is promised of it.
#[verifier::external_body]
fn now_millis() -> i64 {
    chrono::Utc::now().timestamp_millis()
}

/// A bounded-capacity group of participants with an immutable owner.
pub struct Room {
    pub id: RoomId,
    pub name: String,
    pub participants: Vec<Participant>,
    pub capacity: usize,
    pub created_at: i64,
    pub created_by: Participant,
}

/// The domain failures a room can report: policy violations, never fatal.
#[derive(Clone, Copy, PartialEq, Eq, Debug, Structural)]
pub enum RoomError {
    RoomFull { room_id: RoomId },
    NotOwner { room_id: RoomId, participant: Participant },
    NotParticipant { room_id: RoomId, participant: Participant },
}

/// A membership operation on a room, used to model the lifecycle.
pub enum RoomOp {
    Join(Participant),
    Leave(Participant),
}

/// The mathematical model of a room.
#[verifier::ext_equal]
pub struct RoomModel {
    pub id: RoomId,
    pub name: Seq<char>,
    pub participants: Seq<Participant>,
    pub capacity: nat,
    pub created_at: int,
    pub created_by: Participant,
}

impl RoomModel {
    /// The room invariant: membership never exceeds capacity.
    pub open spec fn wf(self) -> bool {
        self.participants.len() <= self.capacity
    }

    pub open spec fn is_member(self, participant: Participant) -> bool {
        self.participants.contains(participant)
    }

    pub open spec fn full(self) -> bool {
        self.participants.len() >= self.capacity
    }

    /// The effect of one membership operation: a join appends unless the room
    /// is full, a leave removes every occurrence of the participant.
    pub open spec fn apply_op(self, op: RoomOp) -> RoomModel {
        match op {
            RoomOp::Join(p) => if self.full() {
                self
            } else {
                RoomModel { participants: self.participants.push(p), ..self }
            },
            RoomOp::Leave(p) => RoomModel {
                participants: without_participant(self.participants, p),
                ..self
            },
        }
    }

    /// The effect of a sequence of membership operations, applied in order.
    pub open spec fn apply_ops(self, ops: Seq<RoomOp>) -> RoomModel
        decreases ops.len(),
    {
        if ops.len() == 0 {
            self
        } else {
            self.apply_op(ops[0]).apply_ops(ops.drop_first())
        }
    }
}

/// The member sequence with every occurrence of `p` removed, join order kept.
pub open spec fn without_participant(s: Seq<Participant>, p: Participant) -> Seq<Participant> {
    s.filter(|q: Participant| q != p)
}

impl Clone for Room {
    /// A deep copy: the clone models the same room.
    fn clone(&self) -> (res: Self)
        ensures
            res@ == self@,
    {
        Room {
            id: self.id,
            name: self.name.clone(),
            participants: copy_participants(&self.participants),
            capacity: self.capacity,
            created_at: self.created_at,
            created_by: self.created_by,
        }
    }
}

/// Copies a member list element by element.
fn copy_participants(v: &Vec<Participant>) -> (r: Vec<Participant>)
    ensures
        r@ == v@,
{
    let n = v.len();
    let mut r: Vec<Participant> = Vec::new();
    for i in 0..n
        invariant
            n == v.len(),
            r@ == v@.take(i as int),
    {
        proof {
            assert(v@.take(i + 1) =~= v@.take(i as int).push(v@[i as int]));
        }
        r.push(v[i]);
    }
    proof {
        assert(v@.take(n as int) =~= v@);
    }
    r
}

/// The capacity invariant as a law: starting from a room within capacity,
/// any sequence of joins and leaves keeps membership within capacity, and
/// leaves the room's identity, owner and capacity untouched.
pub proof fn lemma_capacity_invariant(m: RoomModel, ops: Seq<RoomOp>)
    requires
        m.wf(),
    ensures
        m.apply_ops(ops).wf(),
        m.apply_ops(ops).id == m.id,
        m.apply_ops(ops).capacity == m.capacity,
        m.apply_ops(ops).created_by == m.created_by,
    decreases ops.len(),
{
    if ops.len() > 0 {
        lemma_apply_op_preserves_wf(m, ops[0]);
        lemma_capacity_invariant(m.apply_op(ops[0]), ops.drop_first());
    }
}

/// One membership operation keeps the room within capacity and touches
/// nothing but the member list.
pub proof fn lemma_apply_op_preserves_wf(m: RoomModel, op: RoomOp)
    requires
        m.wf(),
    ensures
        m.apply_op(op).wf(),
        m.apply_op(op).id == m.id,
        m.apply_op(op).capacity == m.capacity,
        m.apply_op(op).created_by == m.created_by,
{
    broadcast use vstd::seq_lib::group_filter_ensures;

}

/// Membership after a leave: exactly the other members remain. In
/// particular, once a disconnected participant has been removed, they are no
/// longer a member, and a following broadcast reaches exactly the rest.
pub proof fn lemma_disconnect_self_heals(m: RoomModel, p: Participant)
    ensures
        !m.apply_op(RoomOp::Leave(p)).is_member(p),
        forall|q: Participant|
            #[trigger] m.apply_op(RoomOp::Leave(p)).is_member(q) <==> (m.is_member(q) && q != p),
{
    assert forall|q: Participant|
        #[trigger] m.apply_op(RoomOp::Leave(p)).is_member(q) <==> (m.is_member(q) && q
            != p) by {
        lemma_without_participant_contains(m.participants, p, q);
    }
}

/// Removing a participant removes exactly their occurrences: what remains
/// contains a value if and only if the full sequence did and it is not the
/// one removed.
pub proof fn lemma_without_participant_contains(
    s: Seq<Participant>,
    p: Participant,
    q: Participant,
)
    ensures
        without_participant(s, p).contains(q) <==> (s.contains(q) && q != p),
    decreases s.len(),
{
    broadcast use vstd::seq_lib::group_filter_ensures;

    reveal_with_fuel(Seq::<_>::filter, 2);
    if s.len() == 0 {
        assert(without_participant(s, p).len() == 0);
    } else {
        let t = s.drop_last();
        lemma_without_participant_contains(t, p, q);
        if s.contains(q) && q != p {
            let i = choose|i: int| 0 <= i < s.len() && s[i] == q;
            assert(without_participant(s, p).contains(s[i]));
        }
        if without_participant(s, p).contains(q) {
            assert(q != p);
            let w = without_participant(s, p);
            let i = choose|i: int| 0 <= i < w.len() && w[i] == q;
            if s.last() != p {
                assert(w =~= without_participant(t, p).push(s.last()));
                if i < w.len() - 1 {
                    assert(without_participant(t, p)[i] == q);
                    assert(without_participant(t, p).contains(q));
                    let j = choose|j: int| 0 <= j < t.len() && t[j] == q;
                    assert(s[j] == q);
                } else {
                    assert(s[s.len() - 1] == q);
                }
            } else {
                assert(w =~= without_participant(t, p));
                assert(without_participant(t, p).contains(q));
                let j = choose|j: int| 0 <= j < t.len() && t[j] == q;
                assert(s[j] == q);
            }
        }
    }
}

/// The routing decision a message handler produces for one inbound message.
#[derive(Debug)]
pub enum MessageResponse<M> {
    Unicast { to: Participant, msg: M },
    Broadcast { msg: M },
    Void,
}

/// The deliveries a routing decision expands to: one payload, pushed to each
/// recipient in turn. A `Void` decision yields no delivery at all.
#[derive(Debug)]
pub enum DeliveryPlan<M> {
    NoDelivery,
    Deliver { recipients: Vec<Participant>, msg: M },
}

/// A dispatch failure: either the room refused the message, or the pluggable
/// handler itself failed; the handler's error is carried, never swallowed.
#[derive(Debug)]
pub enum DispatchError<E> {
    Room(RoomError),
    Handler(E),
}

/// The pluggable interpreter of inbound messages: maps one inbound message to
/// a routing decision. The core never inspects payloads; it only validates
/// the decision against current membership. Implementations are supplied by
/// the application, so nothing is assumed of what they return.
pub trait MessageHandler<In> {
    type Outbound;

    type Err;

    fn handle_message(&self, room: &Room, from: Participant, msg: In) -> Result<
        MessageResponse<Self::Outbound>,
        Self::Err,
    >;
}

impl View for Room {
    type V = RoomModel;

    open spec fn view(&self) -> RoomModel {
        RoomModel {
            id: self.id,
            name: self.name@,
            participants: self.participants@,
            capacity: self.capacity as nat,
            created_at: self.created_at as int,
            created_by: self.created_by,
        }
    }
}

impl Room {
    /// Creates a room with a fresh identity, the creator recorded as owner,
    /// and no participants: the owner is not joined automatically.
    pub fn new(name: String, capacity: usize, participant: Participant) -> (room: Room)
        ensures
            room@.name == name@,
            room@.participants == Seq::<Participant>::empty(),
            room@.capacity == capacity as nat,
            room@.created_by == participant,
            room@.wf(),
    {
        Room {
            id: RoomId(fresh_uuid()),
            name,
            participants: Vec::new(),
            capacity,
            created_at: now_millis(),
            created_by: participant,
        }
    }

    /// Appends the participant unless the room is full. A participant that is
    /// already present is appended again: joining is not idempotent.
    pub fn join(&mut self, participant: Participant) -> (r: Result<(), RoomError>)
        ensures
            final(self)@ == old(self)@.apply_op(RoomOp::Join(participant)),
            old(self)@.full() ==> r == Err::<(), RoomError>(
                RoomError::RoomFull { room_id: old(self)@.id },
            ),
            !old(self)@.full() ==> r == Ok::<(), RoomError>(()) && final(self)@.wf(),
    {
        if self.is_full() {
            return Err(RoomError::RoomFull { room_id: self.id });
        }
        self.participants.push(participant);
        Ok(())
    }

    /// Removes every occurrence of the participant; a no-op if absent.
    pub fn leave(&mut self, participant_id: Participant)
        ensures
            final(self)@ == old(self)@.apply_op(RoomOp::Leave(participant_id)),
    {
        let n = self.participants.len();
        let mut kept: Vec<Participant> = Vec::new();
        for i in 0..n
            invariant
                n == self.participants.len(),
                kept@ == without_participant(
                    self.participants@.take(i as int),
                    participant_id,
                ),
        {
            let q = self.participants[i];
            proof {
                let s = self.participants@;
                reveal_with_fuel(Seq::filter, 2);
                assert(s.take(i + 1).drop_last() =~= s.take(i as int));
                assert(s.take(i + 1).last() == s[i as int]);
            }
            if q != participant_id {
                kept.push(q);
            }
        }
        proof {
            assert(self.participants@.take(n as int) =~= self.participants@);
        }
        self.participants = kept;
    }

    /// Checks the requester's right to close the room: only the owner may.
    /// The entity itself is unchanged; destruction is the store's business.
    pub fn close(&self, participant: Participant) -> (r: Result<(), RoomError>)
        ensures
            participant == self@.created_by ==> r == Ok::<(), RoomError>(()),
            participant != self@.created_by ==> r == Err::<(), RoomError>(
                RoomError::NotOwner { room_id: self@.id, participant },
            ),
    {
        if self.created_by != participant {
            return Err(RoomError::NotOwner { room_id: self.id, participant });
        }
        Ok(())
    }

    pub fn is_full(&self) -> (r: bool)
        ensures
            r == self@.full(),
    {
        self.participants.len() >= self.capacity
    }

    /// Expands a routing decision into deliveries against current membership:
    /// a unicast to a non-member is refused, a broadcast reaches the full
    /// member list in join order (the sender included), `Void` yields nothing.
    pub fn route_response<M>(&self, response: MessageResponse<M>) -> (r: Result<
        DeliveryPlan<M>,
        RoomError,
    >)
        ensures
            match response {
                MessageResponse::Unicast { to, msg } => if self@.is_member(to) {
                    r matches Ok(DeliveryPlan::Deliver { recipients, msg: m })
                        && recipients@ == seq![to] && m == msg
                } else {
                    r == Err::<DeliveryPlan<M>, RoomError>(
                        RoomError::NotParticipant { room_id: self@.id, participant: to },
                    )
                },
                MessageResponse::Broadcast { msg } => r matches Ok(
                    DeliveryPlan::Deliver { recipients, msg: m },
                ) && recipients@ == self@.participants && m == msg,
                MessageResponse::Void => r matches Ok(DeliveryPlan::NoDelivery),
            },
    {
        match response {
            MessageResponse::Unicast { to, msg } => {
                if !self.is_participant(to) {
                    return Err(RoomError::NotParticipant { room_id: self.id, participant: to });
                }
                let mut recipients: Vec<Participant> = Vec::new();
                recipients.push(to);
                proof {
                    assert(recipients@ =~= seq![to]);
                }
                Ok(DeliveryPlan::Deliver { recipients, msg })
            },
            MessageResponse::Broadcast { msg } => {
                let recipients = copy_participants(&self.participants);
                Ok(DeliveryPlan::Deliver { recipients, msg })
            },
            MessageResponse::Void => Ok(DeliveryPlan::NoDelivery),
        }
    }

    /// Dispatches one inbound message: a non-member sender is refused before
    /// the handler runs; the handler's decision is then validated and
    /// expanded, and a handler failure is carried out as such.
    pub fn handle_message<In, H: MessageHandler<In>>(
        &self,
        handler: &H,
        from: Participant,
        msg: In,
    ) -> (r: Result<DeliveryPlan<H::Outbound>, DispatchError<H::Err>>)
        ensures
            !self@.is_member(from) ==> (r matches Err(DispatchError::Room(e))
                && e == (RoomError::NotParticipant { room_id: self@.id, participant: from })),
            r matches Ok(DeliveryPlan::Deliver { recipients, .. }) ==> (self@.is_member(from)
                && (forall|i: int|
                    0 <= i < recipients@.len() ==> self@.is_member(#[trigger] recipients@[i]))),
            r matches Ok(DeliveryPlan::NoDelivery) ==> self@.is_member(from),
            self@.is_member(from) ==> (r matches Err(DispatchError::Room(e)) ==> (e matches
                RoomError::NotParticipant { room_id, participant } && room_id == self@.id
                && !self@.is_member(participant))),
    {
        if !self.is_participant(from) {
            return Err(DispatchError::Room(
                RoomError::NotParticipant { room_id: self.id, participant: from },
            ));
        }
        match handler.handle_message(self, from, msg) {
            Ok(response) => {
                let ghost resp = response;
                match self.route_response(response) {
                    Ok(plan) => {
                        proof {
                            let pl = plan;
                            match pl {
                                DeliveryPlan::Deliver { recipients, .. } => {
                                    assert forall|i: int|
                                        0 <= i < recipients@.len() implies self@.is_member(
                                        #[trigger] recipients@[i],
                                    ) by {
                                        match resp {
                                            MessageResponse::Broadcast { .. } => {
                                                assert(self@.participants[i] == recipients@[i]);
                                            },
                                            _ => {},
                                        }
                                    }
                                },
                                DeliveryPlan::NoDelivery => {},
                            }
                        }
                        Ok(plan)
                    },
                    Err(e) => Err(DispatchError::Room(e)),
                }
            },
            Err(e) => Err(DispatchError::Handler(e)),
        }
    }

    pub fn is_participant(&self, participant: Participant) -> (r: bool)
        ensures
            r == self@.is_member(participant),
    {
        let n = self.participants.len();
        for i in 0..n
            invariant
                n == self.participants.len(),
                forall|j: int| 0 <= j < i ==> self.participants@[j] != participant,
        {
            if self.participants[i] == participant {
                return true;
            }
        }
        false
    }
}

} // verus!
