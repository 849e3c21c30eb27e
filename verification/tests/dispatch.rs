use lobby::dispatch::{
    close_room, join_room, leave_room, list_rooms, open_room, plan_message, DeliveryRun,
    HandleMessageError, RoomAppError,
};
use lobby::domain::{
    DeliveryPlan, MessageHandler, MessageResponse, Participant, Room, RoomError,
};
use lobby::registry::{InMemoryRoomRepo, InfrastructureError};
use lobby::sender::MessageSenderError;

struct Broadcaster;

impl MessageHandler<String> for Broadcaster {
    type Outbound = String;

    type Err = String;

    fn handle_message(
        &self,
        _room: &Room,
        _from: Participant,
        msg: String,
    ) -> Result<MessageResponse<String>, String> {
        Ok(MessageResponse::Broadcast { msg })
    }
}

#[test]
fn open_room_then_get_round_trips() {
    let mut repo = InMemoryRoomRepo::new();
    let owner = Participant(1);
    let room = open_room(&mut repo, "x".to_string(), 2, owner);
    let got = repo.get(room.id).expect("the opened room should be stored");
    assert_eq!(got.name, "x");
    assert_eq!(got.capacity, 2);
    assert_eq!(got.created_by, owner);
    assert!(got.participants.is_empty());
}

#[test]
fn list_rooms_shows_every_open_room() {
    let mut repo = InMemoryRoomRepo::new();
    let a = open_room(&mut repo, "a".to_string(), 1, Participant(1));
    let b = open_room(&mut repo, "b".to_string(), 2, Participant(2));
    let rooms = list_rooms(&repo);
    assert_eq!(rooms.len(), 2);
    assert!(rooms.iter().any(|r| r.id == a.id));
    assert!(rooms.iter().any(|r| r.id == b.id));
}

#[test]
fn join_room_appends_until_full() {
    let mut repo = InMemoryRoomRepo::new();
    let room = open_room(&mut repo, "single".to_string(), 1, Participant(1));
    assert!(join_room(&mut repo, room.id, Participant(10)).is_ok());
    let err = join_room(&mut repo, room.id, Participant(11)).unwrap_err();
    match err {
        RoomAppError::RoomDomain(RoomError::RoomFull { room_id }) => assert_eq!(room_id, room.id),
        other => panic!("expected RoomFull, got {:?}", other),
    }
    let got = repo.get(room.id).unwrap();
    assert_eq!(got.participants, vec![Participant(10)]);
}

#[test]
fn join_room_of_an_absent_room_is_not_found() {
    let mut repo = InMemoryRoomRepo::new();
    let probe = Room::new("probe".to_string(), 1, Participant(1));
    let err = join_room(&mut repo, probe.id, Participant(10)).unwrap_err();
    match err {
        RoomAppError::RoomNotFound { room_id } => assert_eq!(room_id, probe.id),
        other => panic!("expected RoomNotFound, got {:?}", other),
    }
}

#[test]
fn leave_room_persists_the_removal() {
    let mut repo = InMemoryRoomRepo::new();
    let room = open_room(&mut repo, "general".to_string(), 2, Participant(1));
    join_room(&mut repo, room.id, Participant(10)).unwrap();
    join_room(&mut repo, room.id, Participant(11)).unwrap();
    leave_room(&mut repo, room.id, Participant(10)).unwrap();
    let got = repo.get(room.id).unwrap();
    assert_eq!(got.participants, vec![Participant(11)]);
}

#[test]
fn leave_room_of_an_absent_room_is_not_found() {
    let mut repo = InMemoryRoomRepo::new();
    let probe = Room::new("probe".to_string(), 1, Participant(1));
    let err = leave_room(&mut repo, probe.id, Participant(10)).unwrap_err();
    assert!(matches!(err, RoomAppError::RoomNotFound { .. }));
}

#[test]
fn close_room_by_the_owner_removes_it() {
    let mut repo = InMemoryRoomRepo::new();
    let owner = Participant(1);
    let room = open_room(&mut repo, "mine".to_string(), 2, owner);
    close_room(&mut repo, room.id, owner).unwrap();
    assert!(repo.get(room.id).is_none());
}

#[test]
fn close_room_by_a_non_owner_fails_and_the_room_remains() {
    let mut repo = InMemoryRoomRepo::new();
    let owner = Participant(1);
    let other = Participant(2);
    let room = open_room(&mut repo, "mine".to_string(), 2, owner);
    let err = close_room(&mut repo, room.id, other).unwrap_err();
    match err {
        RoomAppError::RoomDomain(RoomError::NotOwner { room_id, participant }) => {
            assert_eq!(room_id, room.id);
            assert_eq!(participant, other);
        }
        other => panic!("expected NotOwner, got {:?}", other),
    }
    assert!(repo.get(room.id).is_some());
}

#[test]
fn close_room_of_an_absent_room_is_not_found() {
    let mut repo = InMemoryRoomRepo::new();
    let probe = Room::new("probe".to_string(), 1, Participant(1));
    let err = close_room(&mut repo, probe.id, Participant(1)).unwrap_err();
    assert!(matches!(err, RoomAppError::RoomNotFound { .. }));
}

#[test]
fn plan_message_for_an_absent_room_is_not_found() {
    let repo = InMemoryRoomRepo::new();
    let probe = Room::new("probe".to_string(), 1, Participant(1));
    let err = plan_message(&repo, &Broadcaster, probe.id, Participant(10), "hi".to_string())
        .unwrap_err();
    match err {
        HandleMessageError::App(RoomAppError::RoomNotFound { room_id }) => {
            assert_eq!(room_id, probe.id);
        }
        other => panic!("expected RoomNotFound, got {:?}", other),
    }
}

#[test]
fn plan_message_from_a_non_member_is_refused() {
    let mut repo = InMemoryRoomRepo::new();
    let room = open_room(&mut repo, "general".to_string(), 2, Participant(1));
    join_room(&mut repo, room.id, Participant(10)).unwrap();
    let outsider = Participant(66);
    let err =
        plan_message(&repo, &Broadcaster, room.id, outsider, "hi".to_string()).unwrap_err();
    match err {
        HandleMessageError::App(RoomAppError::RoomDomain(RoomError::NotParticipant {
            room_id,
            participant,
        })) => {
            assert_eq!(room_id, room.id);
            assert_eq!(participant, outsider);
        }
        other => panic!("expected NotParticipant, got {:?}", other),
    }
}

#[test]
fn plan_message_broadcast_reaches_the_whole_membership() {
    let mut repo = InMemoryRoomRepo::new();
    let a = Participant(10);
    let b = Participant(11);
    let c = Participant(12);
    let room = open_room(&mut repo, "general".to_string(), 3, Participant(1));
    join_room(&mut repo, room.id, a).unwrap();
    join_room(&mut repo, room.id, b).unwrap();
    join_room(&mut repo, room.id, c).unwrap();
    let plan = plan_message(&repo, &Broadcaster, room.id, a, "all".to_string()).unwrap();
    match plan {
        DeliveryPlan::Deliver { recipients, msg } => {
            assert_eq!(recipients, vec![a, b, c]);
            assert_eq!(msg, "all");
        }
        DeliveryPlan::NoDelivery => panic!("expected a fan-out"),
    }
}

#[test]
fn a_disconnected_recipient_is_evicted_and_the_run_continues() {
    let mut repo = InMemoryRoomRepo::new();
    let a = Participant(10);
    let b = Participant(11);
    let room = open_room(&mut repo, "general".to_string(), 2, Participant(1));
    join_room(&mut repo, room.id, a).unwrap();
    join_room(&mut repo, room.id, b).unwrap();

    let plan = plan_message(&repo, &Broadcaster, room.id, a, "hi".to_string()).unwrap();
    let recipients = match plan {
        DeliveryPlan::Deliver { recipients, .. } => recipients,
        DeliveryPlan::NoDelivery => panic!("expected deliveries"),
    };
    let mut run = DeliveryRun::new(room.id, recipients);

    // delivery to a succeeds
    assert_eq!(run.next_recipient(), Some(a));
    run.record_sent();
    // delivery to b finds the peer gone
    assert_eq!(run.next_recipient(), Some(b));
    run.record_failure(
        &mut repo,
        MessageSenderError::ParticipantDisconnected { participant: b },
    )
    .unwrap();
    assert_eq!(run.next_recipient(), None);

    // b is no longer a member, and a following broadcast reaches only a
    let got = repo.get(room.id).unwrap();
    assert_eq!(got.participants, vec![a]);
    let plan = plan_message(&repo, &Broadcaster, room.id, a, "again".to_string()).unwrap();
    match plan {
        DeliveryPlan::Deliver { recipients, .. } => assert_eq!(recipients, vec![a]),
        DeliveryPlan::NoDelivery => panic!("expected a delivery to a"),
    }
}

#[test]
fn a_non_disconnect_failure_aborts_the_run_and_keeps_membership() {
    let mut repo = InMemoryRoomRepo::new();
    let a = Participant(10);
    let room = open_room(&mut repo, "general".to_string(), 1, Participant(1));
    join_room(&mut repo, room.id, a).unwrap();
    let mut run = DeliveryRun::new(room.id, vec![a]);
    let err = run
        .record_failure(&mut repo, MessageSenderError::SerializationError)
        .unwrap_err();
    match err {
        RoomAppError::MessageSenderError(e) => {
            assert_eq!(e, MessageSenderError::SerializationError);
        }
        other => panic!("expected the delivery error, got {:?}", other),
    }
    assert_eq!(repo.get(room.id).unwrap().participants, vec![a]);
}

#[test]
fn status_codes_follow_the_error_taxonomy() {
    let probe = Room::new("probe".to_string(), 1, Participant(1));
    let not_found = RoomAppError::RoomNotFound { room_id: probe.id };
    assert_eq!(not_found.status_code(), 404);
    let full = RoomAppError::RoomDomain(RoomError::RoomFull { room_id: probe.id });
    assert_eq!(full.status_code(), 400);
    let not_owner = RoomAppError::RoomDomain(RoomError::NotOwner {
        room_id: probe.id,
        participant: Participant(2),
    });
    assert_eq!(not_owner.status_code(), 401);
    let not_participant = RoomAppError::RoomDomain(RoomError::NotParticipant {
        room_id: probe.id,
        participant: Participant(2),
    });
    assert_eq!(not_participant.status_code(), 400);
    let repo_err = RoomAppError::RoomRepositoryError(InfrastructureError {
        message: "store briefly unavailable".to_string(),
    });
    assert_eq!(repo_err.status_code(), 500);
    let sender_err = RoomAppError::MessageSenderError(MessageSenderError::SerializationError);
    assert_eq!(sender_err.status_code(), 500);
}

struct SadHandler;

impl MessageHandler<String> for SadHandler {
    type Outbound = String;

    type Err = String;

    fn handle_message(
        &self,
        _room: &Room,
        _from: Participant,
        _msg: String,
    ) -> Result<MessageResponse<String>, String> {
        Err("interpreter gave up".to_string())
    }
}

#[test]
fn plan_message_carries_the_handler_error_out() {
    let mut repo = InMemoryRoomRepo::new();
    let a = Participant(10);
    let room = open_room(&mut repo, "general".to_string(), 1, Participant(1));
    join_room(&mut repo, room.id, a).unwrap();
    let err = plan_message(&repo, &SadHandler, room.id, a, "hi".to_string()).unwrap_err();
    match err {
        HandleMessageError::Handler(e) => assert_eq!(e, "interpreter gave up"),
        other => panic!("expected the handler's error, got {:?}", other),
    }
}

#[test]
fn a_disconnect_after_the_room_vanished_aborts_with_not_found() {
    let mut repo = InMemoryRoomRepo::new();
    let owner = Participant(1);
    let a = Participant(10);
    let room = open_room(&mut repo, "general".to_string(), 1, owner);
    join_room(&mut repo, room.id, a).unwrap();
    let mut run = DeliveryRun::new(room.id, vec![a]);
    close_room(&mut repo, room.id, owner).unwrap();
    let err = run
        .record_failure(
            &mut repo,
            MessageSenderError::ParticipantDisconnected { participant: a },
        )
        .unwrap_err();
    match err {
        RoomAppError::RoomNotFound { room_id } => assert_eq!(room_id, room.id),
        other => panic!("expected RoomNotFound, got {:?}", other),
    }
}
