//! The per-connection session: the handshake gate and the dispatch of frames.
//!
//! A frame is a byte sequence whose last byte is its type tag; the bytes
//! before it are the payload, which the codec around the engine decodes. The
//! engine routes a frame by its tag, is handed the decoded request, and
//! answers with the reply to encode and the deliveries to perform.

use vstd::prelude::*;
use crate::client_handler::Client;
use crate::ids::is_random_id;
use crate::laws::{lemma_close_keeps_sync, lemma_request_keeps_sync};
use crate::project::{plan, Delivery};
use crate::registry::{
    after_join, after_leave, join_notices, leave_notices, not_found_message, project_name,
    ProjectsHandler,
};

verus! {

/// The constants that both ends of the protocol agree on.
pub struct Protocol {
    /// The tag of a handshake frame.
    pub handshake: u8,
    /// The tag of a project request frame.
    pub project_request: u8,
    /// The one protocol version that the server accepts.
    pub version: String,
}

/// Whether a session may use the protocol beyond the handshake.
#[derive(Clone, Copy, Debug, PartialEq, Eq, Structural)]
pub enum HandshakeState {
    AwaitingHandshake,
    Completed,
}

/// Why a connection was closed, as far as the server tells closes apart.
#[derive(Clone, Copy, Debug, PartialEq, Eq, Structural)]
pub enum CloseKind {
    /// The client is done with the connection.
    Normal,
    /// The client is leaving the site.
    Away,
    /// Anything else: the client encountered an error.
    Error,
}

/// A typed record for the codec to encode and send to the requesting session.
pub enum Reply {
    HandshakeAcknowledgement { id: u128 },
    HandshakeError { message: String },
    Project { id: u128, name: String },
    ProjectRequestError { message: String },
}

/// A [`Reply`] with its texts as character sequences.
pub enum ReplyView {
    HandshakeAcknowledgement { id: u128 },
    HandshakeError { message: Seq<char> },
    Project { id: u128, name: Seq<char> },
    ProjectRequestError { message: Seq<char> },
}

impl View for Reply {
    type V = ReplyView;

    open spec fn view(&self) -> ReplyView {
        match self {
            Reply::HandshakeAcknowledgement { id } => ReplyView::HandshakeAcknowledgement {
                id: *id,
            },
            Reply::HandshakeError { message } => ReplyView::HandshakeError { message: message@ },
            Reply::Project { id, name } => ReplyView::Project { id: *id, name: name@ },
            Reply::ProjectRequestError { message } => ReplyView::ProjectRequestError {
                message: message@,
            },
        }
    }
}

/// A message as the transport hands it over.
pub enum Incoming {
    Text(String),
    Binary(Vec<u8>),
}

/// A payload after decoding.
pub enum Request {
    /// The payload did not decode as what its tag announced.
    Malformed,
    Handshake { protocol_version: String },
    ProjectRequest { id: u128 },
}

/// Where a frame goes.
pub enum Route {
    /// Nothing happens: the frame is empty or its tag is unknown.
    Discard,
    /// The handshake is not completed and the frame is no handshake.
    Refuse,
    /// The payload is to be decoded as a handshake.
    Handshake,
    /// The payload is to be decoded as a project request.
    ProjectRequest,
}

/// What to do with a frame.
pub enum Dispatch {
    /// Drop the frame.
    Discard,
    /// Send this reply and drop the frame without decoding it.
    Refuse(Reply),
    /// Decode this payload as a handshake.
    Handshake(Vec<u8>),
    /// Decode this payload as a project request.
    ProjectRequest(Vec<u8>),
}

/// What handling one request asks of the transport: first the deliveries, in
/// order, then the reply to the requesting session.
pub struct Step {
    pub deliveries: Vec<Delivery>,
    pub reply: Option<Reply>,
}

/// The text sent to a session that skips the handshake.
pub open spec fn not_completed_message() -> Seq<char> {
    "handshake not completed"@
}

/// The text sent to a session that offers another protocol version.
pub open spec fn invalid_version_message() -> Seq<char> {
    "Invalid protocol version"@
}

/// The close code of a normal closure.
pub const CLOSE_NORMAL: u16 = 1000;

/// The close code of a peer that is going away.
pub const CLOSE_AWAY: u16 = 1001;

/// The kind of a close code.
pub open spec fn close_kind(code: u16) -> CloseKind {
    if code == CLOSE_NORMAL {
        CloseKind::Normal
    } else if code == CLOSE_AWAY {
        CloseKind::Away
    } else {
        CloseKind::Error
    }
}

/// Where a frame goes, by its last byte and the state of the handshake.
pub open spec fn route(protocol: &Protocol, completed: bool, data: Seq<u8>) -> Route {
    if data.len() == 0 {
        Route::Discard
    } else if data.last() != protocol.handshake && !completed {
        Route::Refuse
    } else if data.last() == protocol.handshake {
        Route::Handshake
    } else if data.last() == protocol.project_request {
        Route::ProjectRequest
    } else {
        Route::Discard
    }
}

/// Whether `dispatch` is what [`route`] asks for on this frame.
pub open spec fn follows_route(dispatch: Dispatch, route: Route, data: Seq<u8>) -> bool {
    match route {
        Route::Discard => dispatch is Discard,
        Route::Refuse => dispatch is Refuse && dispatch->Refuse_0@ == (ReplyView::HandshakeError {
            message: not_completed_message(),
        }),
        Route::Handshake => dispatch is Handshake && dispatch->Handshake_0@ == data.drop_last(),
        Route::ProjectRequest => dispatch is ProjectRequest && dispatch->ProjectRequest_0@
            == data.drop_last(),
    }
}

/// Tells a normal closure and a peer going away from every other close.
pub fn classify_close(code: u16) -> (kind: CloseKind)
    ensures
        kind == close_kind(code),
{
    if code == CLOSE_NORMAL {
        CloseKind::Normal
    } else if code == CLOSE_AWAY {
        CloseKind::Away
    } else {
        CloseKind::Error
    }
}

/// The server's record of one live connection.
pub struct ClientHandler {
    pub id: u128,
    pub joined_project: Option<u128>,
    pub handshake_completed: bool,
}

impl ClientHandler {
    /// The session and the registry agree: the session is a member of a
    /// project if and only if that project is the one the session records,
    /// and the project it records exists.
    pub open spec fn in_sync(self, registry: Map<u128, Seq<u128>>) -> bool {
        &&& forall|project: u128| #[trigger]
            registry.dom().contains(project) ==> (registry[project].contains(self.id)
                <==> self.joined_project == Some(project))
        &&& self.joined_project is Some ==> registry.dom().contains(self.joined_project->0)
    }

    /// The session after a handshake that offers `version`: completed where
    /// the version is the server's, unchanged otherwise.
    pub open spec fn after_handshake(self, protocol: &Protocol, version: Seq<char>) -> ClientHandler {
        if version == protocol.version@ {
            ClientHandler { handshake_completed: true, ..self }
        } else {
            self
        }
    }

    /// The reply to a handshake that offers `version`.
    pub open spec fn handshake_reply(self, protocol: &Protocol, version: Seq<char>) -> ReplyView {
        if version == protocol.version@ {
            ReplyView::HandshakeAcknowledgement { id: self.id }
        } else {
            ReplyView::HandshakeError { message: invalid_version_message() }
        }
    }

    /// The session after it asks for `target`: recorded there where the
    /// handshake is completed and the project exists, unchanged otherwise.
    pub open spec fn after_request(self, registry: Map<u128, Seq<u128>>, target: u128) -> ClientHandler {
        if self.handshake_completed && registry.dom().contains(target) {
            ClientHandler { joined_project: Some(target), ..self }
        } else {
            self
        }
    }

    /// The registry after the session asks for `target`.
    pub open spec fn registry_after_request(
        self,
        registry: Map<u128, Seq<u128>>,
        target: u128,
    ) -> Map<u128, Seq<u128>> {
        if self.handshake_completed {
            after_join(registry, self.joined_project, self.id, target)
        } else {
            registry
        }
    }

    /// The notices that go out when the session asks for `target`.
    pub open spec fn request_notices(self, registry: Map<u128, Seq<u128>>, target: u128) -> Seq<
        (u128, Seq<u8>),
    > {
        if self.handshake_completed {
            join_notices(registry, self.joined_project, target)
        } else {
            Seq::empty()
        }
    }

    /// The reply to the session's request for `target`.
    pub open spec fn request_reply(self, registry: Map<u128, Seq<u128>>, target: u128) -> ReplyView {
        if !self.handshake_completed {
            ReplyView::HandshakeError { message: not_completed_message() }
        } else if registry.dom().contains(target) {
            ReplyView::Project { id: target, name: project_name() }
        } else {
            ReplyView::ProjectRequestError { message: not_found_message() }
        }
    }

    /// The registry after the session's connection closes.
    pub open spec fn registry_after_close(self, registry: Map<u128, Seq<u128>>) -> Map<
        u128,
        Seq<u128>,
    > {
        match self.joined_project {
            Some(project) => after_leave(registry, project, self.id),
            None => registry,
        }
    }

    /// The notices that go out when the session's connection closes.
    pub open spec fn close_notices(self, registry: Map<u128, Seq<u128>>) -> Seq<(u128, Seq<u8>)> {
        match self.joined_project {
            Some(project) => leave_notices(registry, project),
            None => Seq::empty(),
        }
    }

    /// The session of a connection that has just opened, under a fresh
    /// random id.
    pub fn new() -> (handler: ClientHandler)
        ensures
            is_random_id(handler.id),
            handler.joined_project is None,
            !handler.handshake_completed,
    {
        ClientHandler::for_client(Client::new())
    }

    /// The session of a connection that has just opened, for the given
    /// client.
    pub fn for_client(client: Client) -> (handler: ClientHandler)
        ensures
            handler == (ClientHandler {
                id: client.id,
                joined_project: None,
                handshake_completed: client.handshake_completed,
            }),
    {
        ClientHandler {
            id: client.id,
            joined_project: None,
            handshake_completed: client.handshake_completed,
        }
    }

    /// The state of the handshake gate.
    pub fn handshake_state(&self) -> (state: HandshakeState)
        ensures
            state == HandshakeState::Completed <==> self.handshake_completed,
    {
        if self.handshake_completed {
            HandshakeState::Completed
        } else {
            HandshakeState::AwaitingHandshake
        }
    }

    /// Routes a message of the transport: a text message is dropped, a binary
    /// message is a frame.
    pub fn on_message(&self, protocol: &Protocol, message: Incoming) -> (dispatch: Dispatch)
        ensures
            match message {
                Incoming::Text(_) => dispatch is Discard,
                Incoming::Binary(data) => follows_route(
                    dispatch,
                    route(protocol, self.handshake_completed, data@),
                    data@,
                ),
            },
    {
        match message {
            Incoming::Text(_) => Dispatch::Discard,
            Incoming::Binary(data) => self.handle_binary_message(protocol, data),
        }
    }

    /// Routes a frame by its last byte. An empty frame and a frame with an
    /// unknown tag are dropped. While the handshake is not completed, every
    /// frame but a handshake is refused with a handshake error, its payload
    /// left undecoded. The session itself does not change.
    pub fn handle_binary_message(&self, protocol: &Protocol, data: Vec<u8>) -> (dispatch: Dispatch)
        ensures
            follows_route(dispatch, route(protocol, self.handshake_completed, data@), data@),
    {
        let mut data = data;
        let ghost frame = data@;
        match data.pop() {
            Some(tag) => {
                assert(data@ == frame.drop_last());
                if tag != protocol.handshake && !self.handshake_completed {
                    Dispatch::Refuse(
                        Reply::HandshakeError { message: "handshake not completed".to_string() },
                    )
                } else if tag == protocol.handshake {
                    Dispatch::Handshake(data)
                } else if tag == protocol.project_request {
                    Dispatch::ProjectRequest(data)
                } else {
                    Dispatch::Discard
                }
            },
            None => Dispatch::Discard,
        }
    }

    /// Handles a decoded request. A malformed payload is dropped: nothing
    /// changes, nothing is sent.
    pub fn process_binary_message(
        &mut self,
        protocol: &Protocol,
        projects: &mut ProjectsHandler,
        request: Request,
    ) -> (step: Step)
        requires
            old(projects).wf(),
        ensures
            final(projects).wf(),
            old(self).in_sync(old(projects)@) ==> final(self).in_sync(final(projects)@),
            match request {
                Request::Malformed => {
                    &&& *final(self) == *old(self)
                    &&& final(projects)@ == old(projects)@
                    &&& step.deliveries@.len() == 0
                    &&& step.reply is None
                },
                Request::Handshake { protocol_version } => {
                    &&& *final(self) == old(self).after_handshake(protocol, protocol_version@)
                    &&& final(projects)@ == old(projects)@
                    &&& step.deliveries@.len() == 0
                    &&& step.reply is Some
                    &&& step.reply->0@ == old(self).handshake_reply(protocol, protocol_version@)
                },
                Request::ProjectRequest { id } => {
                    &&& *final(self) == old(self).after_request(old(projects)@, id)
                    &&& final(projects)@ == old(self).registry_after_request(old(projects)@, id)
                    &&& plan(step.deliveries@) == old(self).request_notices(old(projects)@, id)
                    &&& step.reply is Some
                    &&& step.reply->0@ == old(self).request_reply(old(projects)@, id)
                },
            },
    {
        match request {
            Request::Malformed => Step { deliveries: Vec::new(), reply: None },
            Request::Handshake { protocol_version } => {
                let reply = self.process_handshake(protocol, &protocol_version);
                Step { deliveries: Vec::new(), reply: Some(reply) }
            },
            Request::ProjectRequest { id } => self.process_project_request(projects, id),
        }
    }

    /// Handles a handshake. The offered version is compared with the server's,
    /// character for character. On a match the handshake is completed, for
    /// good, and the reply tells the session its id. Otherwise the session is
    /// unchanged and the reply is a handshake error.
    pub fn process_handshake(&mut self, protocol: &Protocol, protocol_version: &String) -> (reply:
        Reply)
        ensures
            *final(self) == old(self).after_handshake(protocol, protocol_version@),
            reply@ == old(self).handshake_reply(protocol, protocol_version@),
    {
        if *protocol_version == protocol.version {
            self.handshake_completed = true;
            Reply::HandshakeAcknowledgement { id: self.id }
        } else {
            Reply::HandshakeError { message: "Invalid protocol version".to_string() }
        }
    }

    /// Handles a request to join a project. Before the handshake is completed
    /// the request is refused and nothing changes. A request for an unknown
    /// project is answered with an error and nothing changes. Otherwise the
    /// session leaves the other project it is in, if any, whose members are
    /// notified, joins the requested one, and is sent its descriptor.
    pub fn process_project_request(&mut self, projects: &mut ProjectsHandler, project_id: u128) -> (step:
        Step)
        requires
            old(projects).wf(),
        ensures
            final(projects).wf(),
            old(self).in_sync(old(projects)@) ==> final(self).in_sync(final(projects)@),
            *final(self) == old(self).after_request(old(projects)@, project_id),
            final(projects)@ == old(self).registry_after_request(old(projects)@, project_id),
            plan(step.deliveries@) == old(self).request_notices(old(projects)@, project_id),
            step.reply is Some,
            step.reply->0@ == old(self).request_reply(old(projects)@, project_id),
    {
        proof {
            projects.lemma_members_distinct();
            if self.in_sync(projects@) {
                lemma_request_keeps_sync(*self, projects@, project_id);
            }
        }
        if !self.handshake_completed {
            let deliveries: Vec<Delivery> = Vec::new();
            assert(plan(deliveries@) =~= Seq::empty());
            return Step {
                deliveries,
                reply: Some(
                    Reply::HandshakeError { message: "handshake not completed".to_string() },
                ),
            };
        }
        let (joined, deliveries) = projects.join_project(project_id, self.id, self.joined_project);
        match joined {
            Ok(snapshot) => {
                self.joined_project = Some(project_id);
                Step {
                    deliveries,
                    reply: Some(Reply::Project { id: snapshot.id, name: snapshot.name }),
                }
            },
            Err(_) => Step {
                deliveries,
                reply: Some(
                    Reply::ProjectRequestError { message: "Project does not exist!".to_string() },
                ),
            },
        }
    }

    /// Handles the close of the connection: the session leaves the project it
    /// is in, if any, whose members are notified. The close code only tells
    /// what to log.
    pub fn on_close(&mut self, projects: &mut ProjectsHandler, code: u16) -> (closed: (
        Vec<Delivery>,
        CloseKind,
    ))
        requires
            old(projects).wf(),
        ensures
            final(projects).wf(),
            old(self).in_sync(old(projects)@) ==> final(self).in_sync(final(projects)@),
            *final(self) == (ClientHandler { joined_project: None, ..*old(self) }),
            final(projects)@ == old(self).registry_after_close(old(projects)@),
            plan(closed.0@) == old(self).close_notices(old(projects)@),
            closed.1 == close_kind(code),
    {
        proof {
            projects.lemma_members_distinct();
            if self.in_sync(projects@) {
                lemma_close_keeps_sync(*self, projects@);
            }
        }
        let deliveries = match self.joined_project {
            Some(project_id) => projects.leave_project(project_id, self.id),
            None => {
                let deliveries: Vec<Delivery> = Vec::new();
                assert(plan(deliveries@) =~= Seq::empty());
                deliveries
            },
        };
        self.joined_project = None;
        (deliveries, classify_close(code))
    }
}

} // verus!
