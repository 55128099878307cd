//! A project: a named broadcast group of sessions.

use vstd::prelude::*;
use crate::ids::{fresh_id, is_random_id};

verus! {

/// One payload to hand to one session's connection.
pub struct Delivery {
    pub to: u128,
    pub data: Vec<u8>,
}

/// The notification that a project's members receive when one of them leaves.
pub open spec fn left_notice() -> Seq<u8> {
    seq![1u8, 2u8, 3u8, 4u8, 5u8, 6u8, 42u8]
}

/// Recipient and payload of each delivery, in order.
pub open spec fn plan(deliveries: Seq<Delivery>) -> Seq<(u128, Seq<u8>)> {
    Seq::new(deliveries.len(), |i: int| (deliveries[i].to, deliveries[i].data@))
}

/// One delivery of `data` to each member, in member order.
pub open spec fn broadcast_plan(members: Seq<u128>, data: Seq<u8>) -> Seq<(u128, Seq<u8>)> {
    Seq::new(members.len(), |i: int| (members[i], data))
}

/// The member list after `id` joins: unchanged where `id` is a member already.
pub open spec fn with_member(members: Seq<u128>, id: u128) -> Seq<u128> {
    if members.contains(id) {
        members
    } else {
        members.push(id)
    }
}

/// The member list after `id` leaves: unchanged where `id` is no member.
pub open spec fn without_member(members: Seq<u128>, id: u128) -> Seq<u128> {
    if members.contains(id) {
        members.remove(members.index_of(id))
    } else {
        members
    }
}

/// Joining keeps the list free of duplicates and adds exactly `id`.
pub proof fn lemma_with_member(members: Seq<u128>, id: u128)
    requires
        members.no_duplicates(),
    ensures
        with_member(members, id).no_duplicates(),
        forall|x: u128| with_member(members, id).contains(x) <==> (members.contains(x) || x == id),
{
    let r = with_member(members, id);
    if !members.contains(id) {
        assert forall|x: u128| r.contains(x) <==> (members.contains(x) || x == id) by {
            if r.contains(x) {
                let i = choose|i: int| 0 <= i < r.len() && r[i] == x;
                if i < members.len() {
                    assert(members[i] == x);
                }
            }
            if members.contains(x) {
                let i = choose|i: int| 0 <= i < members.len() && members[i] == x;
                assert(r[i] == x);
            }
            if x == id {
                assert(r[members.len() as int] == x);
            }
        }
    }
}

/// Leaving keeps the list free of duplicates and takes out exactly `id`.
pub proof fn lemma_without_member(members: Seq<u128>, id: u128)
    requires
        members.no_duplicates(),
    ensures
        without_member(members, id).no_duplicates(),
        forall|x: u128| without_member(members, id).contains(x) <==> (members.contains(x) && x != id),
{
    let r = without_member(members, id);
    if members.contains(id) {
        let k = members.index_of(id);
        assert(0 <= k < members.len() && members[k] == id);
        assert forall|i: int, j: int| 0 <= i < r.len() && 0 <= j < r.len() && i != j implies r[i] != r[j] by {
            let a = if i < k { i } else { i + 1 };
            let b = if j < k { j } else { j + 1 };
            assert(r[i] == members[a] && r[j] == members[b]);
        }
        assert forall|x: u128| r.contains(x) <==> (members.contains(x) && x != id) by {
            if r.contains(x) {
                let i = choose|i: int| 0 <= i < r.len() && r[i] == x;
                let a = if i < k { i } else { i + 1 };
                assert(members[a] == x);
            }
            if members.contains(x) && x != id {
                let a = choose|a: int| 0 <= a < members.len() && members[a] == x;
                let i = if a < k { a } else { a - 1 };
                assert(r[i] == x);
            }
        }
    } else {
        assert forall|x: u128| r.contains(x) <==> (members.contains(x) && x != id) by {}
    }
}

/// The bytes of [`left_notice`].
pub fn left_notice_bytes() -> (bytes: Vec<u8>)
    ensures
        bytes@ == left_notice(),
{
    let mut bytes: Vec<u8> = Vec::new();
    bytes.push(1u8);
    bytes.push(2u8);
    bytes.push(3u8);
    bytes.push(4u8);
    bytes.push(5u8);
    bytes.push(6u8);
    bytes.push(42u8);
    assert(bytes@ =~= left_notice());
    bytes
}

/// A copy of `data`.
pub fn copy_bytes(data: &Vec<u8>) -> (copy: Vec<u8>)
    ensures
        copy@ == data@,
{
    let mut copy: Vec<u8> = Vec::new();
    let mut i: usize = 0;
    while i < data.len()
        invariant
            i <= data.len(),
            copy@ == data@.subrange(0, i as int),
        decreases data.len() - i,
    {
        copy.push(data[i]);
        i += 1;
        assert(copy@ =~= data@.subrange(0, i as int));
    }
    assert(data@.subrange(0, data@.len() as int) =~= data@);
    copy
}

/// A broadcast group. `clients` lists the member sessions in the order in
/// which they joined; it stands for a set, so no id occurs twice.
pub struct Project {
    pub id: u128,
    pub clients: Vec<u128>,
}

impl Project {
    /// No session is listed twice.
    pub open spec fn wf(&self) -> bool {
        self.clients@.no_duplicates()
    }

    /// Whether the project is well-formed.
    pub fn is_well_formed(&self) -> (ok: bool)
        ensures
            ok == self.wf(),
    {
        let mut i: usize = 0;
        while i < self.clients.len()
            invariant
                i <= self.clients.len(),
                forall|a: int, b: int| 0 <= a < b < i ==> self.clients@[a] != self.clients@[b],
            decreases self.clients.len() - i,
        {
            let mut k: usize = 0;
            while k < i
                invariant
                    k <= i < self.clients.len(),
                    forall|a: int| 0 <= a < k ==> self.clients@[a] != self.clients@[i as int],
                decreases i - k,
            {
                if self.clients[k] == self.clients[i] {
                    return false;
                }
                k += 1;
            }
            i += 1;
        }
        true
    }

    /// An empty project under a fresh random id.
    pub fn new() -> (project: Project)
        ensures
            project.wf(),
            project.clients@ == Seq::<u128>::empty(),
            is_random_id(project.id),
    {
        Project::with_id(fresh_id())
    }

    /// An empty project under the given id.
    pub fn with_id(id: u128) -> (project: Project)
        ensures
            project.wf(),
            project.id == id,
            project.clients@ == Seq::<u128>::empty(),
    {
        Project { id, clients: Vec::new() }
    }

    /// Where `id` stands in the member list, if it is a member.
    pub fn position(&self, id: u128) -> (at: Option<usize>)
        ensures
            match at {
                Some(i) => i < self.clients@.len() && self.clients@[i as int] == id,
                None => !self.clients@.contains(id),
            },
    {
        let mut i: usize = 0;
        while i < self.clients.len()
            invariant
                i <= self.clients.len(),
                forall|j: int| 0 <= j < i ==> self.clients@[j] != id,
            decreases self.clients.len() - i,
        {
            if self.clients[i] == id {
                return Some(i);
            }
            i += 1;
        }
        None
    }

    /// Whether `id` is a member.
    pub fn has_client(&self, id: u128) -> (found: bool)
        ensures
            found == self.clients@.contains(id),
    {
        self.position(id).is_some()
    }

    /// Plans one delivery of `data` to every member. The deliveries are
    /// independent of each other: the transport attempts each of them, whatever
    /// became of the others.
    pub fn broadcast(&self, data: &Vec<u8>) -> (deliveries: Vec<Delivery>)
        ensures
            plan(deliveries@) == broadcast_plan(self.clients@, data@),
    {
        let mut deliveries: Vec<Delivery> = Vec::new();
        let mut i: usize = 0;
        while i < self.clients.len()
            invariant
                i <= self.clients.len(),
                deliveries@.len() == i,
                forall|j: int|
                    0 <= j < i ==> deliveries@[j].to == self.clients@[j] && deliveries@[j].data@
                        == data@,
            decreases self.clients.len() - i,
        {
            deliveries.push(Delivery { to: self.clients[i], data: copy_bytes(data) });
            i += 1;
        }
        assert(plan(deliveries@) =~= broadcast_plan(self.clients@, data@));
        deliveries
    }

    /// Adds a member. Adding a session that is a member already changes
    /// nothing.
    pub fn add_client(&mut self, client_id: u128)
        requires
            old(self).wf(),
        ensures
            final(self).wf(),
            final(self).id == old(self).id,
            final(self).clients@ == with_member(old(self).clients@, client_id),
    {
        proof {
            lemma_with_member(self.clients@, client_id);
        }
        if self.position(client_id).is_none() {
            self.clients.push(client_id);
        }
    }

    /// Tells every current member, the leaving one included, that a member
    /// left, and only then takes `id` out of the member list.
    pub fn remove_client(&mut self, id: u128) -> (deliveries: Vec<Delivery>)
        requires
            old(self).wf(),
        ensures
            final(self).wf(),
            final(self).id == old(self).id,
            plan(deliveries@) == broadcast_plan(old(self).clients@, left_notice()),
            final(self).clients@ == without_member(old(self).clients@, id),
    {
        proof {
            lemma_without_member(self.clients@, id);
        }
        let notice = left_notice_bytes();
        let deliveries = self.broadcast(&notice);
        match self.position(id) {
            Some(i) => {
                assert(self.clients@.index_of(id) == i as int);
                self.clients.remove(i);
            },
            None => {},
        }
        deliveries
    }
}

} // verus!
