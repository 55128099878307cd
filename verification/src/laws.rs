//! Laws of the engine, stated over the models that the contracts use.

use vstd::prelude::*;
use crate::project::{
    broadcast_plan, left_notice, lemma_with_member, lemma_without_member, with_member,
    without_member,
};
use crate::registry::{after_join, after_leave, leave_notices, members_distinct, must_leave};
use crate::server::{
    invalid_version_message, not_completed_message, route, ClientHandler, Protocol, ReplyView,
    Route,
};

verus! {

/// While a session awaits the handshake, every frame that is not a handshake
/// is refused, and a project request handed to it anyway is answered with the
/// handshake error and changes neither the session nor the registry.
pub proof fn lemma_gate_refuses(
    session: ClientHandler,
    protocol: &Protocol,
    data: Seq<u8>,
    registry: Map<u128, Seq<u128>>,
    target: u128,
)
    requires
        !session.handshake_completed,
        data.len() > 0,
        data.last() != protocol.handshake,
    ensures
        route(protocol, session.handshake_completed, data) == Route::Refuse,
        session.after_request(registry, target) == session,
        session.registry_after_request(registry, target) == registry,
        session.request_notices(registry, target) == Seq::<(u128, Seq<u8>)>::empty(),
        session.request_reply(registry, target) == (ReplyView::HandshakeError {
            message: not_completed_message(),
        }),
{
}

/// A handshake with the server's version completes the handshake and is
/// acknowledged with the session's id; with any other version it leaves the
/// session as it was and is answered with a handshake error.
pub proof fn lemma_version_check(session: ClientHandler, protocol: &Protocol, version: Seq<char>)
    ensures
        version == protocol.version@ ==> {
            &&& session.after_handshake(protocol, version).handshake_completed
            &&& session.after_handshake(protocol, version).id == session.id
            &&& session.after_handshake(protocol, version).joined_project
                == session.joined_project
            &&& session.handshake_reply(protocol, version) == (ReplyView::HandshakeAcknowledgement {
                id: session.id,
            })
        },
        version != protocol.version@ ==> {
            &&& session.after_handshake(protocol, version) == session
            &&& session.handshake_reply(protocol, version) == (ReplyView::HandshakeError {
                message: invalid_version_message(),
            })
        },
{
}

/// A completed handshake stays completed, whatever is handled next.
pub proof fn lemma_completed_is_terminal(
    session: ClientHandler,
    protocol: &Protocol,
    version: Seq<char>,
    registry: Map<u128, Seq<u128>>,
    target: u128,
)
    requires
        session.handshake_completed,
    ensures
        session.after_handshake(protocol, version).handshake_completed,
        session.after_request(registry, target).handshake_completed,
{
}

/// Leaving keeps every member list free of duplicates.
pub proof fn lemma_leave_keeps_distinct(registry: Map<u128, Seq<u128>>, project: u128, client: u128)
    requires
        members_distinct(registry),
    ensures
        members_distinct(after_leave(registry, project, client)),
        after_leave(registry, project, client).dom() == registry.dom(),
{
    let after = after_leave(registry, project, client);
    if registry.dom().contains(project) {
        lemma_without_member(registry[project], client);
        assert(after.dom() =~= registry.dom());
    }
    assert forall|p: u128| #[trigger] after.dom().contains(p) implies after[p].no_duplicates() by {
        assert(registry.dom().contains(p));
    }
}

/// A project request keeps session and registry in agreement, keeps every
/// member list free of duplicates, and creates or destroys no project. So a
/// session is a member of at most one project after any sequence of requests.
pub proof fn lemma_request_keeps_sync(
    session: ClientHandler,
    registry: Map<u128, Seq<u128>>,
    target: u128,
)
    requires
        members_distinct(registry),
        session.in_sync(registry),
    ensures
        members_distinct(session.registry_after_request(registry, target)),
        session.after_request(registry, target).in_sync(
            session.registry_after_request(registry, target),
        ),
        session.registry_after_request(registry, target).dom() == registry.dom(),
{
    let after = session.registry_after_request(registry, target);
    let next = session.after_request(registry, target);
    if session.handshake_completed && registry.dom().contains(target) {
        let joined = session.joined_project;
        let vacated = if must_leave(joined, target) {
            after_leave(registry, joined->0, session.id)
        } else {
            registry
        };
        if must_leave(joined, target) {
            lemma_leave_keeps_distinct(registry, joined->0, session.id);
            assert(registry.dom().contains(joined->0));
            lemma_without_member(registry[joined->0], session.id);
        }
        assert(vacated.dom().contains(target));
        assert(vacated[target] == registry[target]);
        lemma_with_member(vacated[target], session.id);
        assert(after == vacated.insert(target, with_member(vacated[target], session.id)));
        assert(after.dom() =~= registry.dom());
        assert forall|p: u128| #[trigger] after.dom().contains(p) implies after[p].no_duplicates() by {
            assert(vacated.dom().contains(p));
        }
        assert forall|p: u128| #[trigger] after.dom().contains(p) implies (after[p].contains(
            next.id,
        ) <==> next.joined_project == Some(p)) by {
            assert(registry.dom().contains(p));
            if p != target {
                assert(after[p] == vacated[p]);
                if must_leave(joined, target) && p == joined->0 {
                    assert(!vacated[p].contains(session.id));
                } else {
                    assert(vacated[p] == registry[p]);
                }
            }
        }
    }
}

/// The close of a connection keeps session and registry in agreement: the
/// session is then a member of no project.
pub proof fn lemma_close_keeps_sync(session: ClientHandler, registry: Map<u128, Seq<u128>>)
    requires
        members_distinct(registry),
        session.in_sync(registry),
    ensures
        members_distinct(session.registry_after_close(registry)),
        (ClientHandler { joined_project: None, ..session }).in_sync(
            session.registry_after_close(registry),
        ),
        forall|project: u128| #[trigger]
            registry.dom().contains(project) ==> !session.registry_after_close(
                registry,
            )[project].contains(session.id),
{
    let after = session.registry_after_close(registry);
    match session.joined_project {
        Some(project) => {
            lemma_leave_keeps_distinct(registry, project, session.id);
            lemma_without_member(registry[project], session.id);
            assert forall|p: u128| #[trigger] registry.dom().contains(p) implies !after[p].contains(
                session.id,
            ) by {
                if p != project {
                    assert(after[p] == registry[p]);
                }
            }
        },
        None => {},
    }
    assert forall|p: u128| #[trigger] after.dom().contains(p) implies !after[p].contains(
        session.id,
    ) by {
        assert(registry.dom().contains(p));
    }
}

/// After a session joins one project and then another, it is a member of the
/// second and no longer of the first.
pub proof fn lemma_membership_exclusive(
    session: ClientHandler,
    registry: Map<u128, Seq<u128>>,
    first: u128,
    second: u128,
)
    requires
        members_distinct(registry),
        session.in_sync(registry),
        session.handshake_completed,
        registry.dom().contains(first),
        registry.dom().contains(second),
        first != second,
    ensures
        ({
            let registry1 = session.registry_after_request(registry, first);
            let session1 = session.after_request(registry, first);
            let registry2 = session1.registry_after_request(registry1, second);
            &&& registry1[first].contains(session.id)
            &&& !registry2[first].contains(session.id)
            &&& registry2[second].contains(session.id)
            &&& forall|project: u128| #[trigger]
                registry2.dom().contains(project) && project != second
                    ==> !registry2[project].contains(session.id)
        }),
{
    let registry1 = session.registry_after_request(registry, first);
    let session1 = session.after_request(registry, first);
    lemma_request_keeps_sync(session, registry, first);
    assert(registry1.dom().contains(first));
    assert(registry1.dom().contains(second));
    lemma_request_keeps_sync(session1, registry1, second);
    let registry2 = session1.registry_after_request(registry1, second);
    let session2 = session1.after_request(registry1, second);
    assert(registry2.dom().contains(first));
    assert(registry2.dom().contains(second));
    assert(session2.joined_project == Some(second));
}

/// When a session leaves a project, each member that the project has at that
/// moment is due exactly one notice that a member left, and afterwards the
/// session is no member while every other member still is.
pub proof fn lemma_leave_notifies_then_removes(
    registry: Map<u128, Seq<u128>>,
    project: u128,
    leaving: u128,
    member: u128,
)
    requires
        members_distinct(registry),
        registry.dom().contains(project),
        registry[project].contains(member),
    ensures
        ({
            let notices = leave_notices(registry, project);
            let at = registry[project].index_of(member);
            &&& 0 <= at < notices.len()
            &&& notices[at] == (member, left_notice())
            &&& forall|i: int| 0 <= i < notices.len() && notices[i].0 == member ==> i == at
        }),
        !after_leave(registry, project, leaving)[project].contains(leaving),
        member != leaving ==> after_leave(registry, project, leaving)[project].contains(member),
{
    let members = registry[project];
    let at = members.index_of(member);
    assert(0 <= at < members.len() && members[at] == member);
    lemma_without_member(members, leaving);
}

/// Leaving a project that does not exist, or of which the session is no
/// member, leaves the registry as it was. So leaving twice is leaving once.
pub proof fn lemma_leave_is_idempotent(registry: Map<u128, Seq<u128>>, project: u128, client: u128)
    requires
        members_distinct(registry),
    ensures
        !registry.dom().contains(project) || !registry[project].contains(client) ==> after_leave(
            registry,
            project,
            client,
        ) == registry,
        !registry.dom().contains(project) ==> leave_notices(registry, project) == Seq::<
            (u128, Seq<u8>),
        >::empty(),
        after_leave(after_leave(registry, project, client), project, client) == after_leave(
            registry,
            project,
            client,
        ),
{
    let once = after_leave(registry, project, client);
    if registry.dom().contains(project) {
        lemma_without_member(registry[project], client);
        if !registry[project].contains(client) {
            assert(once =~= registry);
        }
        assert(!once[project].contains(client));
        assert(after_leave(once, project, client) =~= once);
    }
}

/// What a broadcast hands to one member does not depend on the others: with
/// any one member taken out, the deliveries to the rest are the same, in the
/// same order.
pub proof fn lemma_broadcast_isolation(members: Seq<u128>, data: Seq<u8>, failing: int)
    requires
        0 <= failing < members.len(),
    ensures
        broadcast_plan(members, data).remove(failing) == broadcast_plan(
            members.remove(failing),
            data,
        ),
        forall|i: int|
            0 <= i < members.len() ==> broadcast_plan(members, data)[i] == (members[i], data),
{
    assert(broadcast_plan(members, data).remove(failing) =~= broadcast_plan(
        members.remove(failing),
        data,
    ));
}

} // verus!
