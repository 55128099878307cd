use collab_server::client_handler::Client;
use collab_server::project::{copy_bytes, left_notice_bytes, Delivery, Project};
use collab_server::registry::{JoinError, ProjectsHandler};
use collab_server::server::{
    classify_close, ClientHandler, CloseKind, Dispatch, HandshakeState, Incoming, Protocol, Reply,
    Request, Step,
};

const HANDSHAKE: u8 = 0;
const PROJECT_REQUEST: u8 = 1;
const ROOM_A: u128 = 0xdeadbeef_dead_beef_dead_beefdeadbeef;
const ROOM_B: u128 = 0;
const NOTICE: [u8; 7] = [1, 2, 3, 4, 5, 6, 42];

fn protocol() -> Protocol {
    Protocol { handshake: HANDSHAKE, project_request: PROJECT_REQUEST, version: String::from("1.0") }
}

fn session(id: u128) -> ClientHandler {
    ClientHandler::for_client(Client { id, handshake_completed: false })
}

fn ready_session(id: u128) -> ClientHandler {
    ClientHandler::for_client(Client { id, handshake_completed: true })
}

fn pairs(deliveries: &Vec<Delivery>) -> Vec<(u128, Vec<u8>)> {
    deliveries.iter().map(|d| (d.to, d.data.clone())).collect()
}

fn handshake_error_text(reply: &Reply) -> Option<String> {
    match reply {
        Reply::HandshakeError { message } => Some(message.clone()),
        _ => None,
    }
}

fn frame(payload: &[u8], tag: u8) -> Vec<u8> {
    let mut data = payload.to_vec();
    data.push(tag);
    data
}

fn join(session: &mut ClientHandler, projects: &mut ProjectsHandler, id: u128) -> Step {
    session.process_binary_message(&protocol(), projects, Request::ProjectRequest { id })
}

#[test]
fn scenario_handshake_join_and_disconnect() {
    let protocol = protocol();
    let mut projects = ProjectsHandler::new();
    let mut s1 = session(11);
    let mut s2 = session(22);

    match s1.handle_binary_message(&protocol, frame(b"1.0", HANDSHAKE)) {
        Dispatch::Handshake(payload) => assert_eq!(payload, b"1.0".to_vec()),
        _ => panic!("a handshake frame is routed to the handshake"),
    }
    let step = s1.process_binary_message(
        &protocol,
        &mut projects,
        Request::Handshake { protocol_version: String::from("1.0") },
    );
    assert!(step.deliveries.is_empty());
    assert!(matches!(step.reply, Some(Reply::HandshakeAcknowledgement { id: 11 })));
    assert_eq!(s1.handshake_state(), HandshakeState::Completed);

    match s1.handle_binary_message(&protocol, frame(&[9, 9], PROJECT_REQUEST)) {
        Dispatch::ProjectRequest(payload) => assert_eq!(payload, vec![9, 9]),
        _ => panic!("a project request is routed once the handshake is completed"),
    }
    let step = join(&mut s1, &mut projects, ROOM_A);
    assert!(step.deliveries.is_empty());
    match step.reply {
        Some(Reply::Project { id, name }) => {
            assert_eq!(id, ROOM_A);
            assert_eq!(name, "ProtoMesh");
        }
        _ => panic!("the requester receives the project descriptor"),
    }

    s2.process_handshake(&protocol, &String::from("1.0"));
    let step = join(&mut s2, &mut projects, ROOM_A);
    assert!(matches!(step.reply, Some(Reply::Project { .. })));
    assert_eq!(projects.members(ROOM_A), Some(vec![11, 22]));

    let (deliveries, kind) = s1.on_close(&mut projects, 1000);
    assert_eq!(kind, CloseKind::Normal);
    let to_s2: Vec<_> = pairs(&deliveries).into_iter().filter(|d| d.0 == 22).collect();
    assert_eq!(to_s2, vec![(22, NOTICE.to_vec())]);
    assert_eq!(projects.members(ROOM_A), Some(vec![22]));
    assert_eq!(s1.joined_project, None);
}

#[test]
fn scenario_project_request_before_handshake() {
    let protocol = protocol();
    let mut projects = ProjectsHandler::new();
    let mut s3 = session(33);
    match s3.handle_binary_message(&protocol, frame(&[1, 2, 3], PROJECT_REQUEST)) {
        Dispatch::Refuse(reply) => {
            assert_eq!(handshake_error_text(&reply), Some(String::from("handshake not completed")));
        }
        _ => panic!("the frame is refused"),
    }
    assert_eq!(s3.handshake_state(), HandshakeState::AwaitingHandshake);
    assert_eq!(projects.members(ROOM_A), Some(vec![]));
    assert_eq!(projects.members(ROOM_B), Some(vec![]));

    let step = join(&mut s3, &mut projects, ROOM_A);
    assert!(step.deliveries.is_empty());
    assert_eq!(
        handshake_error_text(&step.reply.unwrap()),
        Some(String::from("handshake not completed"))
    );
    assert_eq!(s3.joined_project, None);
    assert_eq!(projects.members(ROOM_A), Some(vec![]));
}

#[test]
fn gate_refuses_every_tag_but_the_handshake() {
    let protocol = protocol();
    let s = session(5);
    for tag in 1..=255u8 {
        let dispatch = s.handle_binary_message(&protocol, frame(&[7], tag));
        assert!(matches!(dispatch, Dispatch::Refuse(Reply::HandshakeError { .. })));
        assert!(!s.handshake_completed);
    }
    assert!(matches!(
        s.handle_binary_message(&protocol, frame(&[7], HANDSHAKE)),
        Dispatch::Handshake(_)
    ));
}

#[test]
fn empty_frame_is_discarded() {
    let protocol = protocol();
    assert!(matches!(session(5).handle_binary_message(&protocol, vec![]), Dispatch::Discard));
    assert!(matches!(ready_session(5).handle_binary_message(&protocol, vec![]), Dispatch::Discard));
}

#[test]
fn unknown_tag_is_discarded_after_the_handshake() {
    let protocol = protocol();
    let s = ready_session(5);
    for tag in 2..=255u8 {
        assert!(matches!(s.handle_binary_message(&protocol, frame(&[1], tag)), Dispatch::Discard));
    }
}

#[test]
fn tag_is_the_last_byte_not_the_first() {
    let protocol = protocol();
    let s = ready_session(5);
    match s.handle_binary_message(&protocol, vec![HANDSHAKE, 8, PROJECT_REQUEST]) {
        Dispatch::ProjectRequest(payload) => assert_eq!(payload, vec![HANDSHAKE, 8]),
        _ => panic!("the last byte decides"),
    }
    match s.handle_binary_message(&protocol, vec![PROJECT_REQUEST, HANDSHAKE]) {
        Dispatch::Handshake(payload) => assert_eq!(payload, vec![PROJECT_REQUEST]),
        _ => panic!("the last byte decides"),
    }
}

#[test]
fn text_message_is_dropped() {
    let protocol = protocol();
    let s = ready_session(5);
    assert!(matches!(
        s.on_message(&protocol, Incoming::Text(String::from("hello"))),
        Dispatch::Discard
    ));
    assert!(matches!(
        s.on_message(&protocol, Incoming::Binary(vec![4, PROJECT_REQUEST])),
        Dispatch::ProjectRequest(_)
    ));
}

#[test]
fn malformed_payload_changes_nothing() {
    let protocol = protocol();
    let mut projects = ProjectsHandler::new();
    let mut s = session(5);
    let step = s.process_binary_message(&protocol, &mut projects, Request::Malformed);
    assert!(step.deliveries.is_empty());
    assert!(step.reply.is_none());
    assert!(!s.handshake_completed);
    assert_eq!(s.joined_project, None);
    assert_eq!(projects.members(ROOM_A), Some(vec![]));
}

#[test]
fn handshake_with_the_right_version_completes() {
    let protocol = protocol();
    let mut s = session(77);
    let reply = s.process_handshake(&protocol, &String::from("1.0"));
    assert!(matches!(reply, Reply::HandshakeAcknowledgement { id: 77 }));
    assert!(s.handshake_completed);
    assert_eq!(s.id, 77);
}

#[test]
fn handshake_with_another_version_is_rejected() {
    let protocol = protocol();
    for version in ["", "1.1", "1.0 ", "1", "01.0", "1.00"] {
        let mut s = session(77);
        let reply = s.process_handshake(&protocol, &String::from(version));
        assert_eq!(handshake_error_text(&reply), Some(String::from("Invalid protocol version")));
        assert_eq!(s.handshake_state(), HandshakeState::AwaitingHandshake);
    }
}

#[test]
fn rejected_handshake_can_be_retried() {
    let protocol = protocol();
    let mut s = session(77);
    s.process_handshake(&protocol, &String::from("0.9"));
    assert!(!s.handshake_completed);
    let reply = s.process_handshake(&protocol, &String::from("1.0"));
    assert!(matches!(reply, Reply::HandshakeAcknowledgement { id: 77 }));
    assert!(s.handshake_completed);
}

#[test]
fn completed_handshake_is_terminal() {
    let protocol = protocol();
    let mut s = ready_session(77);
    let reply = s.process_handshake(&protocol, &String::from("2.0"));
    assert!(matches!(reply, Reply::HandshakeError { .. }));
    assert_eq!(s.handshake_state(), HandshakeState::Completed);
}

#[test]
fn joining_a_second_project_leaves_the_first() {
    let mut projects = ProjectsHandler::with_ids(&vec![1, 2, 3]);
    let mut s = ready_session(9);
    let mut t = ready_session(8);
    join(&mut t, &mut projects, 1);
    join(&mut s, &mut projects, 1);
    let step = join(&mut s, &mut projects, 2);
    assert_eq!(pairs(&step.deliveries), vec![(8, NOTICE.to_vec()), (9, NOTICE.to_vec())]);
    assert_eq!(projects.members(1), Some(vec![8]));
    assert_eq!(projects.members(2), Some(vec![9]));
    assert_eq!(s.joined_project, Some(2));
    for target in [3u128, 1, 2, 2, 3, 1] {
        join(&mut s, &mut projects, target);
        for room in [1u128, 2, 3] {
            let members = projects.members(room).unwrap();
            assert_eq!(members.contains(&9), room == target);
        }
        assert_eq!(s.joined_project, Some(target));
    }
}

#[test]
fn joining_the_same_project_again_changes_nothing() {
    let mut projects = ProjectsHandler::with_ids(&vec![1, 2]);
    let mut s = ready_session(9);
    join(&mut s, &mut projects, 1);
    let step = join(&mut s, &mut projects, 1);
    assert!(step.deliveries.is_empty());
    assert!(matches!(step.reply, Some(Reply::Project { id: 1, .. })));
    assert_eq!(projects.members(1), Some(vec![9]));
}

#[test]
fn unknown_project_is_an_error_without_effect() {
    let mut projects = ProjectsHandler::with_ids(&vec![1, 2]);
    let mut s = ready_session(9);
    join(&mut s, &mut projects, 1);
    let step = join(&mut s, &mut projects, 99);
    assert!(step.deliveries.is_empty());
    match step.reply {
        Some(Reply::ProjectRequestError { message }) => {
            assert_eq!(message, "Project does not exist!")
        }
        _ => panic!("an unknown project is answered with an error"),
    }
    assert_eq!(s.joined_project, Some(1));
    assert_eq!(projects.members(1), Some(vec![9]));
    assert_eq!(projects.members(99), None);
    assert!(!projects.contains_project(99));

    let (outcome, deliveries) = projects.join_project(99, 9, Some(1));
    assert!(matches!(outcome, Err(JoinError::ProjectNotFound)));
    assert!(deliveries.is_empty());
    assert_eq!(projects.members(1), Some(vec![9]));
}

#[test]
fn leaving_notifies_members_before_the_removal() {
    let mut projects = ProjectsHandler::with_ids(&vec![1]);
    let (s, t) = (50u128, 60u128);
    assert!(projects.join_project(1, s, None).0.is_ok());
    assert!(projects.join_project(1, t, None).0.is_ok());
    let deliveries = projects.leave_project(1, s);
    let sent = pairs(&deliveries);
    assert_eq!(sent.iter().filter(|d| d.0 == t).count(), 1);
    assert_eq!(sent, vec![(s, NOTICE.to_vec()), (t, NOTICE.to_vec())]);
    assert_eq!(projects.members(1), Some(vec![t]));
}

#[test]
fn leaving_is_idempotent() {
    let mut projects = ProjectsHandler::with_ids(&vec![1, 2]);
    projects.join_project(1, 60, None).0.unwrap();
    assert!(projects.leave_project(7, 50).is_empty());
    assert_eq!(projects.members(1), Some(vec![60]));
    assert_eq!(projects.members(2), Some(vec![]));
    assert_eq!(projects.members(7), None);

    projects.leave_project(1, 50);
    assert_eq!(projects.members(1), Some(vec![60]));
    projects.leave_project(2, 50);
    assert_eq!(projects.members(2), Some(vec![]));

    projects.leave_project(1, 60);
    projects.leave_project(1, 60);
    assert_eq!(projects.members(1), Some(vec![]));
}

#[test]
fn broadcast_plans_one_delivery_per_member() {
    let mut project = Project::with_id(4);
    project.add_client(1);
    project.add_client(2);
    project.add_client(3);
    let deliveries = project.broadcast(&vec![9, 8, 7]);
    assert_eq!(pairs(&deliveries), vec![(1, vec![9, 8, 7]), (2, vec![9, 8, 7]), (3, vec![9, 8, 7])]);
    // The second delivery fails: the other two are carried out all the same.
    let outcomes = [true, false, true];
    let reached: Vec<u128> =
        deliveries.iter().zip(outcomes).filter(|(_, ok)| *ok).map(|(d, _)| d.to).collect();
    assert_eq!(reached, vec![1, 3]);
}

#[test]
fn broadcast_to_an_empty_project_plans_nothing() {
    assert!(Project::with_id(4).broadcast(&vec![1]).is_empty());
}

#[test]
fn adding_a_member_twice_keeps_one_entry() {
    let mut project = Project::with_id(4);
    project.add_client(1);
    project.add_client(2);
    project.add_client(1);
    assert_eq!(project.clients, vec![1, 2]);
    assert!(project.has_client(2));
    assert!(!project.has_client(3));
    assert_eq!(project.position(2), Some(1));
    assert_eq!(project.position(3), None);
}

#[test]
fn removing_a_member_keeps_the_others_in_order() {
    let mut project = Project::with_id(4);
    for id in [1u128, 2, 3] {
        project.add_client(id);
    }
    let deliveries = project.remove_client(2);
    assert_eq!(deliveries.len(), 3);
    assert_eq!(project.clients, vec![1, 3]);
    assert_eq!(project.id, 4);
}

#[test]
fn the_notice_has_its_fixed_bytes() {
    assert_eq!(left_notice_bytes(), NOTICE.to_vec());
    assert_eq!(copy_bytes(&vec![3, 1, 2]), vec![3, 1, 2]);
    assert_eq!(copy_bytes(&vec![]), Vec::<u8>::new());
}

#[test]
fn the_well_known_projects_exist_from_the_start() {
    let projects = ProjectsHandler::new();
    assert_eq!(projects.projects.len(), 2);
    assert!(projects.contains_project(0xdeadbeef_dead_beef_dead_beefdeadbeef));
    assert!(projects.contains_project(0));
    assert!(!projects.contains_project(1));
    assert_eq!(projects.members(ROOM_A), Some(vec![]));
    assert_eq!(projects.find(ROOM_A), Some(0));
    assert_eq!(projects.find(ROOM_B), Some(1));
    let parsed = uuid::Uuid::parse_str("deadbeef-dead-beef-dead-beefdeadbeef").unwrap();
    assert!(projects.contains_project(parsed.as_u128()));
}

#[test]
fn repeated_ids_seed_one_project() {
    let projects = ProjectsHandler::with_ids(&vec![5, 6, 5]);
    assert_eq!(projects.projects.len(), 2);
    assert!(projects.contains_project(5));
    assert!(projects.contains_project(6));
    assert!(ProjectsHandler::with_ids(&vec![]).projects.is_empty());
}

#[test]
fn fresh_ids_are_random_uuids() {
    let client = Client::new();
    assert!(!client.handshake_completed);
    assert_eq!(uuid::Uuid::from_u128(client.id).get_version_num(), 4);
    assert_eq!(client.id & 0xf000_c000_0000_0000_0000, 0x4000_8000_0000_0000_0000);
    let handler = ClientHandler::new();
    assert_eq!(uuid::Uuid::from_u128(handler.id).get_version_num(), 4);
    assert_eq!(handler.joined_project, None);
    assert_eq!(handler.handshake_state(), HandshakeState::AwaitingHandshake);
    assert_eq!(uuid::Uuid::from_u128(Project::new().id).get_version_num(), 4);
}

#[test]
fn close_codes_are_told_apart() {
    assert_eq!(classify_close(1000), CloseKind::Normal);
    assert_eq!(classify_close(1001), CloseKind::Away);
    for code in [0u16, 999, 1002, 1006, 1011, 4000, u16::MAX] {
        assert_eq!(classify_close(code), CloseKind::Error);
    }
}

#[test]
fn closing_outside_any_project_notifies_nobody() {
    let mut projects = ProjectsHandler::new();
    let mut s = ready_session(5);
    let (deliveries, kind) = s.on_close(&mut projects, 1006);
    assert!(deliveries.is_empty());
    assert_eq!(kind, CloseKind::Error);
    assert_eq!(projects.members(ROOM_A), Some(vec![]));
    assert!(s.handshake_completed);
}

#[test]
fn closing_leaves_the_joined_project() {
    let mut projects = ProjectsHandler::new();
    let mut s = ready_session(5);
    join(&mut s, &mut projects, ROOM_B);
    let (deliveries, kind) = s.on_close(&mut projects, 1001);
    assert_eq!(pairs(&deliveries), vec![(5, NOTICE.to_vec())]);
    assert_eq!(kind, CloseKind::Away);
    assert_eq!(projects.members(ROOM_B), Some(vec![]));
    assert_eq!(s.joined_project, None);
}

#[test]
fn well_formedness_can_be_tested() {
    let mut projects = ProjectsHandler::with_ids(&vec![1, 2]);
    projects.join_project(1, 7, None).0.unwrap();
    projects.join_project(1, 8, None).0.unwrap();
    assert!(projects.is_well_formed());
    assert!(ProjectsHandler::new().is_well_formed());

    let twice = Project { id: 3, clients: vec![7, 8, 7] };
    assert!(!twice.is_well_formed());
    assert!(Project { id: 3, clients: vec![7, 8] }.is_well_formed());
    assert!(Project::with_id(3).is_well_formed());

    let same_id = ProjectsHandler { projects: vec![Project::with_id(1), Project::with_id(1)] };
    assert!(!same_id.is_well_formed());
    let bad_member = ProjectsHandler { projects: vec![Project::with_id(1), twice] };
    assert!(!bad_member.is_well_formed());
}
