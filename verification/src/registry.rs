//! The registry of projects: which project has which members.

use vstd::prelude::*;
use crate::ids::{parse_id, parsed_id};
use crate::project::{
    broadcast_plan, left_notice, lemma_with_member, lemma_without_member, plan, with_member,
    without_member, Delivery, Project,
};

verus! {

/// Why a session could not join a project.
#[derive(Clone, Copy, Debug, PartialEq, Eq, Structural)]
pub enum JoinError {
    /// The registry holds no project under the requested id.
    ProjectNotFound,
}

/// What a session learns of the project it joined.
pub struct ProjectSnapshot {
    pub id: u128,
    pub name: String,
}

/// The display name under which every project is announced.
pub open spec fn project_name() -> Seq<char> {
    "ProtoMesh"@
}

/// The text sent to a session that asks for an unknown project.
pub open spec fn not_found_message() -> Seq<char> {
    "Project does not exist!"@
}

/// The text of the first well-known project id.
pub open spec fn first_seed() -> Seq<char> {
    "deadbeef-dead-beef-dead-beefdeadbeef"@
}

/// The text of the second well-known project id.
pub open spec fn second_seed() -> Seq<char> {
    "00000000-0000-0000-0000-000000000000"@
}

/// The registry after `client` leaves `project`: only that project's member
/// list changes; an unknown project changes nothing.
pub open spec fn after_leave(
    registry: Map<u128, Seq<u128>>,
    project: u128,
    client: u128,
) -> Map<u128, Seq<u128>> {
    if registry.dom().contains(project) {
        registry.insert(project, without_member(registry[project], client))
    } else {
        registry
    }
}

/// The notices that go out when a session leaves `project`: one to each
/// member the project has before the removal; none for an unknown project.
pub open spec fn leave_notices(registry: Map<u128, Seq<u128>>, project: u128) -> Seq<
    (u128, Seq<u8>),
> {
    if registry.dom().contains(project) {
        broadcast_plan(registry[project], left_notice())
    } else {
        Seq::empty()
    }
}

/// Whether a session that is recorded in `joined` must leave it in order to
/// join `target`.
pub open spec fn must_leave(joined: Option<u128>, target: u128) -> bool {
    joined is Some && joined != Some(target)
}

/// The registry after the session `client`, recorded in `joined`, asks for
/// `target`. An unknown target changes nothing. Otherwise the session first
/// leaves the other project it is recorded in, if any, and is then added to
/// `target`.
pub open spec fn after_join(
    registry: Map<u128, Seq<u128>>,
    joined: Option<u128>,
    client: u128,
    target: u128,
) -> Map<u128, Seq<u128>> {
    if !registry.dom().contains(target) {
        registry
    } else {
        let vacated = if must_leave(joined, target) {
            after_leave(registry, joined->0, client)
        } else {
            registry
        };
        vacated.insert(target, with_member(vacated[target], client))
    }
}

/// The notices that go out when the session recorded in `joined` asks for
/// `target`.
pub open spec fn join_notices(
    registry: Map<u128, Seq<u128>>,
    joined: Option<u128>,
    target: u128,
) -> Seq<(u128, Seq<u8>)> {
    if registry.dom().contains(target) && must_leave(joined, target) {
        leave_notices(registry, joined->0)
    } else {
        Seq::empty()
    }
}

/// No member list of the registry names a session twice.
pub open spec fn members_distinct(registry: Map<u128, Seq<u128>>) -> bool {
    forall|project: u128| #[trigger]
        registry.dom().contains(project) ==> registry[project].no_duplicates()
}

/// The ids of the projects that exist from the start, given what parsing the
/// two well-known texts gave.
pub open spec fn seeded(first: Option<u128>, second: Option<u128>) -> Set<u128> {
    Set::new(|id: u128| first == Some(id) || second == Some(id))
}

/// All projects of the server. Each project id occurs once.
pub struct ProjectsHandler {
    pub projects: Vec<Project>,
}

impl ProjectsHandler {
    /// Every project is well-formed and no two share an id.
    pub open spec fn wf(&self) -> bool {
        &&& forall|i: int| 0 <= i < self.projects@.len() ==> (#[trigger] self.projects@[i]).wf()
        &&& forall|i: int, j: int|
            0 <= i < j < self.projects@.len() ==> (#[trigger] self.projects@[i]).id != (
            #[trigger] self.projects@[j]).id
    }

    /// Whether a project with this id exists.
    pub open spec fn has_project(&self, id: u128) -> bool {
        exists|i: int| 0 <= i < self.projects@.len() && (#[trigger] self.projects@[i]).id == id
    }

    /// The place of the project with this id.
    pub open spec fn place(&self, id: u128) -> int {
        choose|i: int| 0 <= i < self.projects@.len() && (#[trigger] self.projects@[i]).id == id
    }

    /// The registry as a map from project id to member list.
    pub open spec fn view(&self) -> Map<u128, Seq<u128>> {
        Map::new(
            |id: u128| self.has_project(id),
            |id: u128| self.projects@[self.place(id)].clients@,
        )
    }

    /// The project at place `i` is found under its id, with its members.
    pub proof fn lemma_view_at(&self, i: int)
        requires
            self.wf(),
            0 <= i < self.projects@.len(),
        ensures
            self@.dom().contains(self.projects@[i].id),
            self@[self.projects@[i].id] == self.projects@[i].clients@,
            self.place(self.projects@[i].id) == i,
    {
        let id = self.projects@[i].id;
        let k = self.place(id);
        assert(0 <= k < self.projects@.len() && self.projects@[k].id == id);
        if k < i {
            assert(self.projects@[k].id != self.projects@[i].id);
        }
        if i < k {
            assert(self.projects@[i].id != self.projects@[k].id);
        }
    }

    /// A well-formed registry lists no session twice in any project.
    pub proof fn lemma_members_distinct(&self)
        requires
            self.wf(),
        ensures
            members_distinct(self@),
    {
        assert forall|project: u128| #[trigger] self@.dom().contains(project) implies self@[project].no_duplicates() by {
            let k = self.place(project);
            assert(self.projects@[k].wf());
        }
    }

    /// Replacing the member list of the project at place `i` changes the map
    /// at that project's id and nowhere else.
    proof fn lemma_view_update(before: &ProjectsHandler, after: &ProjectsHandler, i: int)
        requires
            before.wf(),
            0 <= i < before.projects@.len(),
            after.projects@.len() == before.projects@.len(),
            forall|j: int|
                0 <= j < before.projects@.len() && j != i ==> after.projects@[j]
                    == before.projects@[j],
            after.projects@[i].id == before.projects@[i].id,
            after.projects@[i].wf(),
        ensures
            after.wf(),
            after@ == before@.insert(before.projects@[i].id, after.projects@[i].clients@),
    {
        assert forall|j: int| 0 <= j < after.projects@.len() implies (
        #[trigger] after.projects@[j]).id == before.projects@[j].id by {}
        assert forall|j: int| 0 <= j < after.projects@.len() implies (
        #[trigger] after.projects@[j]).wf() by {
            if j != i {
                assert(before.projects@[j].wf());
            }
        }
        assert forall|a: int, b: int| 0 <= a < b < after.projects@.len() implies (
        #[trigger] after.projects@[a]).id != (#[trigger] after.projects@[b]).id by {
            assert(before.projects@[a].id != before.projects@[b].id);
        }
        let target = before@.insert(before.projects@[i].id, after.projects@[i].clients@);
        assert forall|id: u128| after@.dom().contains(id) <==> target.dom().contains(id) by {
            if after.has_project(id) {
                let k = after.place(id);
                assert(before.projects@[k].id == id);
            }
            if before.has_project(id) {
                let k = before.place(id);
                assert(after.projects@[k].id == id);
            }
            before.lemma_view_at(i);
        }
        assert forall|id: u128| after@.dom().contains(id) implies after@[id] == target[id] by {
            let k = after.place(id);
            assert(after.projects@[k].id == id);
            after.lemma_view_at(k);
            before.lemma_view_at(k);
        }
        assert(after@ =~= target);
    }

    /// The registry with the two well-known projects, both empty. A text that
    /// does not parse as a UUID seeds no project.
    pub fn new() -> (handler: ProjectsHandler)
        ensures
            handler.wf(),
            handler@.dom() == seeded(parsed_id(first_seed()), parsed_id(second_seed())),
            forall|id: u128| #[trigger]
                handler@.dom().contains(id) ==> handler@[id] == Seq::<u128>::empty(),
    {
        let mut ids: Vec<u128> = Vec::new();
        match parse_id("deadbeef-dead-beef-dead-beefdeadbeef") {
            Some(id) => ids.push(id),
            None => {},
        }
        match parse_id("00000000-0000-0000-0000-000000000000") {
            Some(id) => ids.push(id),
            None => {},
        }
        let handler = ProjectsHandler::with_ids(&ids);
        proof {
            let want = seeded(parsed_id(first_seed()), parsed_id(second_seed()));
            assert forall|id: u128| handler@.dom().contains(id) <==> want.contains(id) by {
                if ids@.contains(id) {
                    let k = choose|k: int| 0 <= k < ids@.len() && ids@[k] == id;
                    assert(ids@[k] == id);
                }
                if want.contains(id) {
                    if parsed_id(first_seed()) == Some(id) {
                        assert(ids@[0] == id);
                    } else {
                        assert(ids@[ids@.len() - 1] == id);
                    }
                }
            }
            assert(handler@.dom() =~= want);
        }
        handler
    }

    /// The registry with one empty project for each id of `ids`; an id that
    /// occurs again is skipped.
    pub fn with_ids(ids: &Vec<u128>) -> (handler: ProjectsHandler)
        ensures
            handler.wf(),
            forall|id: u128| handler@.dom().contains(id) <==> ids@.contains(id),
            forall|id: u128| #[trigger]
                handler@.dom().contains(id) ==> handler@[id] == Seq::<u128>::empty(),
    {
        let mut handler = ProjectsHandler { projects: Vec::new() };
        let mut i: usize = 0;
        while i < ids.len()
            invariant
                i <= ids.len(),
                handler.wf(),
                forall|id: u128|
                    handler.has_project(id) <==> ids@.subrange(0, i as int).contains(id),
                forall|k: int|
                    0 <= k < handler.projects@.len() ==> (
                    #[trigger] handler.projects@[k]).clients@ == Seq::<u128>::empty(),
            decreases ids.len() - i,
        {
            let id = ids[i];
            let ghost before = handler;
            let ghost seen = ids@.subrange(0, i as int);
            let found = handler.find(id);
            if found.is_none() {
                handler.projects.push(Project::with_id(id));
                assert(handler.projects@[handler.projects@.len() - 1].id == id);
            }
            i += 1;
            proof {
                let now = ids@.subrange(0, i as int);
                assert(now =~= seen.push(id));
                assert forall|x: u128| handler.has_project(x) <==> now.contains(x) by {
                    if handler.has_project(x) {
                        let k = handler.place(x);
                        if k < before.projects@.len() {
                            assert(before.projects@[k].id == x);
                            assert(before.has_project(x));
                            assert(seen.contains(x));
                            let m = choose|m: int| 0 <= m < seen.len() && seen[m] == x;
                            assert(now[m] == x);
                        } else {
                            assert(now[i - 1] == x);
                        }
                    }
                    if now.contains(x) {
                        let m = choose|m: int| 0 <= m < now.len() && now[m] == x;
                        if m < i - 1 {
                            assert(seen[m] == x);
                            assert(before.has_project(x));
                            let k = before.place(x);
                            assert(handler.projects@[k].id == x);
                        } else {
                            if found is Some {
                                assert(handler.projects@[found->0 as int].id == x);
                            } else {
                                assert(handler.projects@[handler.projects@.len() - 1].id == x);
                            }
                        }
                    }
                }
            }
        }
        proof {
            assert(ids@.subrange(0, i as int) =~= ids@);
            assert forall|id: u128| #[trigger] handler@.dom().contains(id) implies handler@[id]
                == Seq::<u128>::empty() by {
                let k = handler.place(id);
                assert(handler.projects@[k].id == id);
            }
        }
        handler
    }

    /// Whether the registry is well-formed.
    pub fn is_well_formed(&self) -> (ok: bool)
        ensures
            ok == self.wf(),
    {
        let mut i: usize = 0;
        while i < self.projects.len()
            invariant
                i <= self.projects.len(),
                forall|a: int| 0 <= a < i ==> (#[trigger] self.projects@[a]).wf(),
                forall|a: int, b: int|
                    0 <= a < b < i ==> (#[trigger] self.projects@[a]).id != (
                    #[trigger] self.projects@[b]).id,
            decreases self.projects.len() - i,
        {
            if !self.projects[i].is_well_formed() {
                return false;
            }
            let mut k: usize = 0;
            while k < i
                invariant
                    k <= i < self.projects.len(),
                    forall|a: int| 0 <= a < k ==> (#[trigger] self.projects@[a]).id != self.projects@[i as int].id,
                decreases i - k,
            {
                if self.projects[k].id == self.projects[i].id {
                    return false;
                }
                k += 1;
            }
            i += 1;
        }
        true
    }

    /// The place of the project with this id, if it exists.
    pub fn find(&self, id: u128) -> (at: Option<usize>)
        ensures
            match at {
                Some(i) => i < self.projects@.len() && self.projects@[i as int].id == id,
                None => !self.has_project(id),
            },
    {
        let mut i: usize = 0;
        while i < self.projects.len()
            invariant
                i <= self.projects.len(),
                forall|j: int| 0 <= j < i ==> (#[trigger] self.projects@[j]).id != id,
            decreases self.projects.len() - i,
        {
            if self.projects[i].id == id {
                return Some(i);
            }
            i += 1;
        }
        None
    }

    /// Whether a project with this id exists.
    pub fn contains_project(&self, id: u128) -> (found: bool)
        ensures
            found == self@.dom().contains(id),
    {
        self.find(id).is_some()
    }

    /// The members of a project, in the order in which they joined; `None`
    /// for an unknown project.
    pub fn members(&self, id: u128) -> (members: Option<Vec<u128>>)
        requires
            self.wf(),
        ensures
            members is Some <==> self@.dom().contains(id),
            members is Some ==> members->0@ == self@[id],
    {
        match self.find(id) {
            Some(i) => {
                proof {
                    self.lemma_view_at(i as int);
                }
                let mut members: Vec<u128> = Vec::new();
                let clients = &self.projects[i].clients;
                let mut k: usize = 0;
                while k < clients.len()
                    invariant
                        k <= clients.len(),
                        members@ == clients@.subrange(0, k as int),
                    decreases clients.len() - k,
                {
                    members.push(clients[k]);
                    k += 1;
                    assert(members@ =~= clients@.subrange(0, k as int));
                }
                assert(clients@.subrange(0, clients@.len() as int) =~= clients@);
                Some(members)
            },
            None => None,
        }
    }

    /// Takes a session out of a project. Every member the project has at that
    /// moment, the leaving session included, is due the notice that a member
    /// left; the session is removed after the notices are planned. An unknown
    /// project changes nothing and notifies nobody.
    pub fn leave_project(&mut self, project_id: u128, client_id: u128) -> (deliveries: Vec<
        Delivery,
    >)
        requires
            old(self).wf(),
        ensures
            final(self).wf(),
            final(self)@ == after_leave(old(self)@, project_id, client_id),
            plan(deliveries@) == leave_notices(old(self)@, project_id),
    {
        match self.find(project_id) {
            Some(i) => {
                let ghost before = *self;
                proof {
                    before.lemma_view_at(i as int);
                }
                let mut project = self.projects.remove(i);
                let deliveries = project.remove_client(client_id);
                self.projects.insert(i, project);
                proof {
                    ProjectsHandler::lemma_view_update(&before, self, i as int);
                }
                deliveries
            },
            None => {
                let deliveries: Vec<Delivery> = Vec::new();
                assert(plan(deliveries@) =~= Seq::empty());
                deliveries
            },
        }
    }

    /// Adds a session to a project that exists, after taking it out of the
    /// other project it is recorded in, if any. An unknown project is an
    /// error and changes nothing: the session stays where it was.
    pub fn join_project(
        &mut self,
        project_id: u128,
        client_id: u128,
        joined: Option<u128>,
    ) -> (outcome: (Result<ProjectSnapshot, JoinError>, Vec<Delivery>))
        requires
            old(self).wf(),
        ensures
            final(self).wf(),
            outcome.0 is Ok <==> old(self)@.dom().contains(project_id),
            outcome.0 is Ok ==> outcome.0->Ok_0.id == project_id && outcome.0->Ok_0.name@
                == project_name(),
            outcome.0 is Err ==> outcome.0->Err_0 == JoinError::ProjectNotFound,
            final(self)@ == after_join(old(self)@, joined, client_id, project_id),
            plan(outcome.1@) == join_notices(old(self)@, joined, project_id),
    {
        if self.find(project_id).is_none() {
            let deliveries: Vec<Delivery> = Vec::new();
            assert(plan(deliveries@) =~= Seq::empty());
            return (Err(JoinError::ProjectNotFound), deliveries);
        }
        let deliveries = match joined {
            Some(previous) if previous != project_id => self.leave_project(previous, client_id),
            _ => {
                let deliveries: Vec<Delivery> = Vec::new();
                assert(plan(deliveries@) =~= Seq::empty());
                deliveries
            },
        };
        match self.find(project_id) {
            Some(i) => {
                let ghost before = *self;
                proof {
                    before.lemma_view_at(i as int);
                }
                let mut project = self.projects.remove(i);
                project.add_client(client_id);
                self.projects.insert(i, project);
                proof {
                    ProjectsHandler::lemma_view_update(&before, self, i as int);
                }
            },
            None => {},
        }
        let name = "ProtoMesh".to_string();
        (Ok(ProjectSnapshot { id: project_id, name }), deliveries)
    }
}

} // verus!
