//! The decision core of the message-sender actor. One sequential loop owns
//! every live connection handle; requests reach it over a queue, so no two
//! operations ever race on the same handle. The loop's bookkeeping and its
//! replies are decided here; the loop itself only performs the writes and
//! reports each outcome back.

use vstd::prelude::*;
use crate::domain::Participant;

verus! {

/// A delivery failure, as the actor reports it to one caller: the recipient
/// has no registered handle, the payload could not be serialized (the handle
/// is kept), or the peer is gone (the handle is dropped).
#[derive(Clone, Copy, PartialEq, Eq, Debug, Structural)]
pub enum MessageSenderError {
    NoSuchParticipant { participant: Participant },
    SerializationError,
    ParticipantDisconnected { participant: Participant },
}

/// One request to the actor, taken from its queue.
#[derive(Debug)]
pub enum Command<M> {
    Register { participant: Participant },
    Unregister { participant: Participant },
    Send { participant: Participant, message: M },
}

/// What the actor must do for one command: reply right away, or attempt a
/// write to the recipient's handle and then report the outcome.
#[derive(Debug)]
pub enum StepAction<M> {
    Registered,
    Unregistered,
    Rejected { error: MessageSenderError },
    Write { to: Participant, message: M },
}

/// The outcome of one attempted write, as the loop observed it.
#[derive(Debug, Clone, Copy, PartialEq, Eq, Structural)]
pub enum WriteOutcome {
    Written,
    SerializationFailed,
    Disconnected,
}

/// The actor's authoritative record of which participants currently have a
/// live connection handle. The handles themselves stay with the loop that
/// owns the transport; this state makes every decision about them.
pub struct SenderRegistry {
    registered: Vec<Participant>,
}

impl SenderRegistry {
    /// Each participant is recorded at most once.
    pub closed spec fn wf(self) -> bool {
        forall|i: int, j: int|
            0 <= i < j < self.registered@.len() ==> self.registered@[i] != self.registered@[j]
    }

    pub closed spec fn is_registered_spec(self, participant: Participant) -> bool {
        self.registered@.contains(participant)
    }

    pub fn new() -> (r: SenderRegistry)
        ensures
            r.wf(),
            forall|p: Participant| !r.is_registered_spec(p),
    {
        SenderRegistry { registered: Vec::new() }
    }

    pub fn is_registered(&self, participant: Participant) -> (r: bool)
        ensures
            r == self.is_registered_spec(participant),
    {
        self.find_index(participant).is_some()
    }

    fn find_index(&self, participant: Participant) -> (r: Option<usize>)
        ensures
            match r {
                Some(i) => i < self.registered@.len() && self.registered@[i as int] == participant,
                None => !self.registered@.contains(participant),
            },
    {
        let n = self.registered.len();
        for i in 0..n
            invariant
                n == self.registered.len(),
                forall|j: int| 0 <= j < i ==> self.registered@[j] != participant,
        {
            if self.registered[i] == participant {
                return Some(i);
            }
        }
        None
    }

    /// Records the participant's handle as live. Registering again is
    /// allowed and leaves one record: the loop replaces the stored handle,
    /// silently discarding the superseded one.
    fn register(&mut self, participant: Participant)
        requires
            old(self).wf(),
        ensures
            final(self).wf(),
            forall|q: Participant|
                #[trigger] final(self).is_registered_spec(q) <==> (old(self).is_registered_spec(q)
                    || q == participant),
    {
        if self.find_index(participant).is_none() {
            self.registered.push(participant);
            proof {
                let s = old(self).registered@;
                let t = self.registered@;
                assert forall|q: Participant|
                    #[trigger] t.contains(q) <==> (s.contains(q) || q == participant) by {
                    if s.contains(q) {
                        let k = choose|k: int| 0 <= k < s.len() && s[k] == q;
                        assert(t[k] == q);
                    }
                    if q == participant {
                        assert(t[s.len() as int] == q);
                    }
                    if t.contains(q) {
                        let k = choose|k: int| 0 <= k < t.len() && t[k] == q;
                        if k < s.len() {
                            assert(s[k] == q);
                        }
                    }
                }
            }
        }
    }

    /// Drops the participant's record; a no-op if absent.
    fn unregister(&mut self, participant: Participant)
        requires
            old(self).wf(),
        ensures
            final(self).wf(),
            forall|q: Participant|
                #[trigger] final(self).is_registered_spec(q) <==> (old(self).is_registered_spec(q)
                    && q != participant),
    {
        match self.find_index(participant) {
            Some(i) => {
                proof {
                    let s = self.registered@;
                    let t = s.remove(i as int);
                    assert(forall|j: int| 0 <= j < i ==> t[j] == s[j]);
                    assert(forall|j: int| i <= j < t.len() ==> t[j] == s[j + 1]);
                    assert forall|q: Participant|
                        #[trigger] t.contains(q) <==> (s.contains(q) && q != participant) by {
                        if t.contains(q) {
                            let k = choose|k: int| 0 <= k < t.len() && t[k] == q;
                            if k < i {
                                assert(s[k] == q);
                            } else {
                                assert(s[k + 1] == q);
                            }
                        }
                        if s.contains(q) && q != participant {
                            let k = choose|k: int| 0 <= k < s.len() && s[k] == q;
                            if k < i {
                                assert(t[k] == q);
                            } else {
                                assert(t[k - 1] == q);
                            }
                        }
                    }
                    assert forall|a: int, b: int| 0 <= a < b < t.len() implies t[a] != t[b] by {}
                }
                self.registered.remove(i);
            },
            None => {},
        }
    }

    /// Decides one command: registrations and unregistrations always
    /// succeed; a send to an unregistered participant is rejected, any other
    /// send becomes a write attempt against the stored handle.
    pub fn step<M>(&mut self, command: Command<M>) -> (action: StepAction<M>)
        requires
            old(self).wf(),
        ensures
            final(self).wf(),
            match command {
                Command::Register { participant } => (action matches StepAction::Registered && (
                forall|q: Participant|
                    #[trigger] final(self).is_registered_spec(q) <==> (old(
                        self,
                    ).is_registered_spec(q) || q == participant))),
                Command::Unregister { participant } => (action matches StepAction::Unregistered
                    && (forall|q: Participant|
                    #[trigger] final(self).is_registered_spec(q) <==> (old(
                        self,
                    ).is_registered_spec(q) && q != participant))),
                Command::Send { participant, message } => (*final(self) == *old(self) && (if old(
                    self,
                ).is_registered_spec(participant) {
                    action matches StepAction::Write { to, message: m } && to == participant && m
                        == message
                } else {
                    action matches StepAction::Rejected { error } && error
                        == (MessageSenderError::NoSuchParticipant { participant })
                })),
            },
    {
        match command {
            Command::Register { participant } => {
                self.register(participant);
                StepAction::Registered
            },
            Command::Unregister { participant } => {
                self.unregister(participant);
                StepAction::Unregistered
            },
            Command::Send { participant, message } => {
                if self.is_registered(participant) {
                    StepAction::Write { to: participant, message }
                } else {
                    StepAction::Rejected {
                        error: MessageSenderError::NoSuchParticipant { participant },
                    }
                }
            },
        }
    }

    /// Folds one write outcome back into the record and decides the reply: a
    /// failed serialization keeps the handle, a disconnected peer loses it,
    /// and only a completed write counts as success.
    pub fn finish_write(&mut self, participant: Participant, outcome: WriteOutcome) -> (r: Result<
        (),
        MessageSenderError,
    >)
        requires
            old(self).wf(),
        ensures
            final(self).wf(),
            match outcome {
                WriteOutcome::Written => (r == Ok::<(), MessageSenderError>(()) && *final(self)
                    == *old(self)),
                WriteOutcome::SerializationFailed => (r == Err::<(), MessageSenderError>(
                    MessageSenderError::SerializationError,
                ) && *final(self) == *old(self)),
                WriteOutcome::Disconnected => (r == Err::<(), MessageSenderError>(
                    MessageSenderError::ParticipantDisconnected { participant },
                ) && (forall|q: Participant|
                    #[trigger] final(self).is_registered_spec(q) <==> (old(
                        self,
                    ).is_registered_spec(q) && q != participant))),
            },
    {
        match outcome {
            WriteOutcome::Written => Ok(()),
            WriteOutcome::SerializationFailed => Err(MessageSenderError::SerializationError),
            WriteOutcome::Disconnected => {
                self.unregister(participant);
                Err(MessageSenderError::ParticipantDisconnected { participant })
            },
        }
    }
}

} // verus!
