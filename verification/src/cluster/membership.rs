//! Who is in the cluster, in which state, and when each member was last
//! heard from.
use vstd::prelude::*;
use crate::core_types::error::CoreError;
use crate::core_types::id::NodeId;
use crate::core_types::text::{clone_strings, strings_view};

verus! {

/// The state of a member.
#[derive(Debug, Clone, Copy, PartialEq, Eq, Structural)]
pub enum MemberState {
    Joining,
    Active,
    Leaving,
    Left,
    Suspected,
}

/// A member of the cluster.
#[derive(Debug, PartialEq, Eq)]
pub struct Member {
    pub node_id: NodeId,
    pub state: MemberState,
    pub address: String,
    pub last_heartbeat: u64,
    pub capabilities: Vec<String>,
}

/// What a member holds, as plain values.
pub struct MemberView {
    pub node: u128,
    pub state: MemberState,
    pub address: Seq<char>,
    pub last_heartbeat: u64,
    pub capabilities: Seq<Seq<char>>,
}

impl View for Member {
    type V = MemberView;

    open spec fn view(&self) -> MemberView {
        MemberView {
            node: self.node_id.value,
            state: self.state,
            address: self.address@,
            last_heartbeat: self.last_heartbeat,
            capabilities: strings_view(self.capabilities@),
        }
    }
}

impl Member {
    /// A joining member at `address`, never heard from, without capabilities.
    pub fn new(node_id: NodeId, address: String) -> (m: Self)
        ensures
            m@ == (MemberView {
                node: node_id.value,
                state: MemberState::Joining,
                address: address@,
                last_heartbeat: 0,
                capabilities: Seq::empty(),
            }),
    {
        let m = Member { node_id, state: MemberState::Joining, address, last_heartbeat: 0, capabilities: Vec::new() };
        assert(m@.capabilities =~= Seq::<Seq<char>>::empty());
        m
    }

    /// The same member in state `state`.
    pub fn with_state(self, state: MemberState) -> (m: Self)
        ensures
            m@ == (MemberView { state, ..self@ }),
    {
        Member { state, ..self }
    }

    /// The same member last heard from at `timestamp`.
    pub fn with_heartbeat(self, timestamp: u64) -> (m: Self)
        ensures
            m@ == (MemberView { last_heartbeat: timestamp, ..self@ }),
    {
        Member { last_heartbeat: timestamp, ..self }
    }

    /// Whether the member is active.
    pub fn is_active(&self) -> (b: bool)
        ensures
            b == (self@.state == MemberState::Active),
    {
        self.state == MemberState::Active
    }

    /// Whether the member is suspected to be down.
    pub fn is_suspect(&self) -> (b: bool)
        ensures
            b == (self@.state == MemberState::Suspected),
    {
        self.state == MemberState::Suspected
    }

    /// A copy of the member.
    pub fn duplicate(&self) -> (m: Self)
        ensures
            m@ == self@,
    {
        let caps = clone_strings(&self.capabilities);
        proof {
            assert(strings_view(caps@) =~= strings_view(self.capabilities@)) by {
                assert(caps.deep_view().len() == self.capabilities.deep_view().len());
                assert forall|i: int| 0 <= i < caps@.len() implies caps@[i]@ == self.capabilities@[i]@ by {
                    assert(caps.deep_view()[i] == self.capabilities.deep_view()[i]);
                }
            }
        }
        Member {
            node_id: self.node_id,
            state: self.state,
            address: self.address.clone(),
            last_heartbeat: self.last_heartbeat,
            capabilities: caps,
        }
    }
}

impl Clone for Member {
    fn clone(&self) -> (m: Self)
        ensures
            m@ == self@,
    {
        self.duplicate()
    }
}

/// The members' identifier values.
pub open spec fn member_ids(ms: Seq<MemberView>) -> Seq<u128> {
    ms.map_values(|m: MemberView| m.node)
}

/// Whether a member with identifier `id` is known.
pub open spec fn has_member(ms: Seq<MemberView>, id: u128) -> bool {
    exists|i: int| 0 <= i < ms.len() && #[trigger] ms[i].node == id
}

/// The position of the member with identifier `id`.
pub open spec fn member_at(ms: Seq<MemberView>, id: u128) -> int {
    choose|i: int| 0 <= i < ms.len() && #[trigger] ms[i].node == id
}

/// The members after recording `m`: it replaces the member with its
/// identifier, or joins last.
pub open spec fn spec_put_member(ms: Seq<MemberView>, m: MemberView) -> Seq<MemberView> {
    if has_member(ms, m.node) {
        ms.update(member_at(ms, m.node), m)
    } else {
        ms.push(m)
    }
}

/// Whether `m` has gone unheard for longer than `timeout` at time `now`:
/// an active member other than `own`.
pub open spec fn is_overdue(m: MemberView, own: u128, now: u64, timeout: u64) -> bool {
    &&& m.node != own
    &&& m.state == MemberState::Active
    &&& (if now >= m.last_heartbeat { now - m.last_heartbeat } else { 0 }) > timeout
}

/// The identifiers of the overdue members, in order.
pub open spec fn spec_overdue(ms: Seq<MemberView>, own: u128, now: u64, timeout: u64) -> Seq<u128>
    decreases ms.len(),
{
    if ms.len() == 0 {
        Seq::empty()
    } else {
        spec_overdue(ms.drop_last(), own, now, timeout) + (if is_overdue(ms.last(), own, now, timeout) {
            seq![ms.last().node]
        } else {
            Seq::empty()
        })
    }
}

/// The members after a heartbeat check: the overdue ones are suspected.
pub open spec fn spec_mark_overdue(ms: Seq<MemberView>, own: u128, now: u64, timeout: u64) -> Seq<MemberView> {
    ms.map_values(
        |m: MemberView|
            if is_overdue(m, own, now, timeout) {
                MemberView { state: MemberState::Suspected, ..m }
            } else {
                m
            },
    )
}

/// The active members, in order.
pub open spec fn spec_active(ms: Seq<MemberView>) -> Seq<MemberView> {
    ms.filter(|m: MemberView| m.state == MemberState::Active)
}

/// The members after a heartbeat of `id` at `timestamp`: its time is
/// recorded and a suspected member becomes active again.
pub open spec fn spec_heartbeat(ms: Seq<MemberView>, id: u128, timestamp: u64) -> Seq<MemberView> {
    if has_member(ms, id) {
        let k = member_at(ms, id);
        let m = ms[k];
        ms.update(
            k,
            MemberView {
                last_heartbeat: timestamp,
                state: if m.state == MemberState::Suspected {
                    MemberState::Active
                } else {
                    m.state
                },
                ..m
            },
        )
    } else {
        ms
    }
}

/// What a membership tracker holds, as plain values.
pub struct MembershipView {
    pub node: u128,
    pub heartbeat_timeout_ms: u64,
    pub members: Seq<MemberView>,
}

/// The known members of the cluster, one per identifier, in the order they
/// joined.
pub struct Membership {
    members: Vec<Member>,
    node_id: NodeId,
    heartbeat_timeout_ms: u64,
}

/// The views of a list of members.
pub open spec fn member_views(v: Seq<Member>) -> Seq<MemberView> {
    v.map_values(|m: Member| m@)
}

impl View for Membership {
    type V = MembershipView;

    closed spec fn view(&self) -> MembershipView {
        MembershipView {
            node: self.node_id.value,
            heartbeat_timeout_ms: self.heartbeat_timeout_ms,
            members: member_views(self.members@),
        }
    }
}

impl Membership {
    #[verifier::type_invariant]
    closed spec fn wf(self) -> bool {
        member_ids(member_views(self.members@)).no_duplicates()
    }

    /// A tracker for `node_id` with no members and a 5000 ms timeout.
    pub fn new(node_id: NodeId) -> (m: Self)
        ensures
            m@ == (MembershipView { node: node_id.value, heartbeat_timeout_ms: 5000, members: Seq::empty() }),
    {
        let m = Membership { members: Vec::new(), node_id, heartbeat_timeout_ms: 5000 };
        assert(member_views(m.members@) =~= Seq::<MemberView>::empty());
        assert(member_ids(member_views(m.members@)) =~= Seq::<u128>::empty());
        m
    }

    /// The position of the member with identifier `id`.
    fn find(&self, id: NodeId) -> (r: Option<usize>)
        ensures
            r is None <==> !has_member(self@.members, id.value),
            r matches Some(k) ==> k < self@.members.len() && k == member_at(self@.members, id.value),
    {
        proof {
            use_type_invariant(self);
        }
        let ghost ms = self@.members;
        let mut i: usize = 0;
        while i < self.members.len()
            invariant
                ms == member_views(self.members@),
                member_ids(ms).no_duplicates(),
                i <= ms.len(),
                forall|j: int| 0 <= j < i ==> ms[j].node != id.value,
            decreases ms.len() - i,
        {
            if self.members[i].node_id == id {
                proof {
                    let k = member_at(ms, id.value);
                    assert(ms[i as int].node == id.value);
                    assert(0 <= k < ms.len() && ms[k].node == id.value);
                    if k != i {
                        assert(member_ids(ms)[k] == member_ids(ms)[i as int]);
                    }
                }
                return Some(i);
            }
            i = i + 1;
        }
        None
    }

    /// Copies of all members.
    pub fn members(&self) -> (v: Vec<Member>)
        ensures
            member_views(v@) == self@.members,
    {
        let mut v: Vec<Member> = Vec::new();
        let mut i: usize = 0;
        while i < self.members.len()
            invariant
                i <= self.members@.len(),
                member_views(v@) == member_views(self.members@).take(i as int),
            decreases self.members@.len() - i,
        {
            let ghost before = member_views(v@);
            let d = self.members[i].duplicate();
            v.push(d);
            assert(member_views(v@) =~= before.push(d@));
            assert(member_views(self.members@).take(i + 1) =~= member_views(self.members@).take(i as int).push(
                self.members@[i as int]@,
            ));
            i = i + 1;
        }
        assert(member_views(self.members@).take(i as int) =~= member_views(self.members@));
        v
    }

    /// Copies of the active members, in order.
    pub fn active_members(&self) -> (v: Vec<Member>)
        ensures
            member_views(v@) == spec_active(self@.members),
    {
        let ghost ms = self@.members;
        let mut v: Vec<Member> = Vec::new();
        let mut i: usize = 0;
        while i < self.members.len()
            invariant
                ms == member_views(self.members@),
                i <= ms.len(),
                member_views(v@) == spec_active(ms.take(i as int)),
            decreases ms.len() - i,
        {
            proof {
                reveal(Seq::filter);
                assert(ms.take(i + 1).drop_last() =~= ms.take(i as int));
            }
            if self.members[i].is_active() {
                v.push(self.members[i].duplicate());
                assert(member_views(v@) =~= spec_active(ms.take(i as int)).push(ms[i as int]));
            }
            i = i + 1;
            assert(member_views(v@) =~= spec_active(ms.take(i as int)));
        }
        assert(ms.take(i as int) =~= ms);
        v
    }

    /// Records `member`, replacing a member with the same identifier.
    pub fn add_member(&mut self, member: Member) -> (r: Result<(), CoreError>)
        ensures
            r is Ok,
            final(self)@ == (MembershipView { members: spec_put_member(old(self)@.members, member@), ..old(self)@ }),
    {
        proof {
            use_type_invariant(&*self);
        }
        let ghost ms = self@.members;
        let found = self.find(member.node_id);
        let mut v: Vec<Member> = Vec::new();
        std::mem::swap(&mut v, &mut self.members);
        match found {
            Some(k) => {
                let ghost mv = member@;
                v.set(k, member);
                proof {
                    assert(member_views(v@) =~= ms.update(k as int, mv));
                    assert(member_ids(member_views(v@)) =~= member_ids(ms).update(k as int, mv.node));
                    let s = member_ids(member_views(v@));
                    assert forall|a: int, b: int| 0 <= a < s.len() && 0 <= b < s.len() && a != b implies s[a]
                        != s[b] by {
                        assert(member_ids(ms)[k as int] == mv.node);
                        if a != k && b != k {
                            assert(s[a] == member_ids(ms)[a] && s[b] == member_ids(ms)[b]);
                        } else if a == k {
                            assert(s[b] == member_ids(ms)[b]);
                        } else {
                            assert(s[a] == member_ids(ms)[a]);
                        }
                    }
                }
            },
            None => {
                let ghost mv = member@;
                v.push(member);
                proof {
                    assert(member_views(v@) =~= ms.push(mv));
                    let s = member_ids(member_views(v@));
                    assert(s =~= member_ids(ms).push(mv.node));
                    assert forall|a: int, b: int| 0 <= a < s.len() && 0 <= b < s.len() && a != b implies s[a]
                        != s[b] by {
                        if a < ms.len() && b < ms.len() {
                            assert(s[a] == member_ids(ms)[a] && s[b] == member_ids(ms)[b]);
                        } else if a < ms.len() {
                            assert(ms[a].node == s[a]);
                        } else {
                            assert(ms[b].node == s[b]);
                        }
                    }
                }
            },
        }
        self.members = v;
        Ok(())
    }

    /// Removes the member with identifier `node_id`; the result tells
    /// whether there was one.
    pub fn remove_member(&mut self, node_id: NodeId) -> (r: Result<bool, CoreError>)
        ensures
            r == Ok::<bool, CoreError>(has_member(old(self)@.members, node_id.value)),
            final(self)@ == (MembershipView {
                members: if has_member(old(self)@.members, node_id.value) {
                    old(self)@.members.remove(member_at(old(self)@.members, node_id.value))
                } else {
                    old(self)@.members
                },
                ..old(self)@
            }),
    {
        proof {
            use_type_invariant(&*self);
        }
        let ghost ms = self@.members;
        match self.find(node_id) {
            Some(k) => {
                let mut v: Vec<Member> = Vec::new();
                std::mem::swap(&mut v, &mut self.members);
                let ghost before = v@;
                let _gone = v.remove(k);
                proof {
                    assert(member_views(v@) =~= ms.remove(k as int));
                    let s = member_ids(member_views(v@));
                    assert(s =~= member_ids(ms).remove(k as int));
                    assert forall|a: int, b: int| 0 <= a < s.len() && 0 <= b < s.len() && a != b implies s[a]
                        != s[b] by {
                        let a2 = if a < k { a } else { a + 1 };
                        let b2 = if b < k { b } else { b + 1 };
                        assert(s[a] == member_ids(ms)[a2] && s[b] == member_ids(ms)[b2]);
                    }
                }
                self.members = v;
                Ok(true)
            },
            None => Ok(false),
        }
    }

    /// A copy of the member with identifier `node_id`.
    pub fn get_member(&self, node_id: NodeId) -> (r: Option<Member>)
        ensures
            r is None <==> !has_member(self@.members, node_id.value),
            r matches Some(m) ==> m@ == self@.members[member_at(self@.members, node_id.value)],
    {
        match self.find(node_id) {
            Some(k) => Some(self.members[k].duplicate()),
            None => None,
        }
    }

    /// Sets the state of the member with identifier `node_id`; the result
    /// tells whether there was one.
    pub fn update_state(&mut self, node_id: NodeId, state: MemberState) -> (r: Result<bool, CoreError>)
        ensures
            r == Ok::<bool, CoreError>(has_member(old(self)@.members, node_id.value)),
            final(self)@ == (MembershipView {
                members: if has_member(old(self)@.members, node_id.value) {
                    let k = member_at(old(self)@.members, node_id.value);
                    old(self)@.members.update(k, MemberView { state, ..old(self)@.members[k] })
                } else {
                    old(self)@.members
                },
                ..old(self)@
            }),
    {
        proof {
            use_type_invariant(&*self);
        }
        let ghost ms = self@.members;
        match self.find(node_id) {
            Some(k) => {
                let mut m = self.members[k].duplicate();
                m.state = state;
                self.replace_at(k, m);
                Ok(true)
            },
            None => Ok(false),
        }
    }

    /// Puts `m`, which keeps the identifier, at position `k`.
    fn replace_at(&mut self, k: usize, m: Member)
        requires
            k < old(self)@.members.len(),
            m@.node == old(self)@.members[k as int].node,
        ensures
            final(self)@ == (MembershipView { members: old(self)@.members.update(k as int, m@), ..old(self)@ }),
    {
        proof {
            use_type_invariant(&*self);
        }
        let ghost ms = self@.members;
        let ghost mv = m@;
        let mut v: Vec<Member> = Vec::new();
        std::mem::swap(&mut v, &mut self.members);
        v.set(k, m);
        proof {
            assert(member_views(v@) =~= ms.update(k as int, mv));
            assert(member_ids(member_views(v@)) =~= member_ids(ms));
        }
        self.members = v;
    }

    /// Records a heartbeat of the member with identifier `node_id` at
    /// `timestamp`; a suspected member becomes active again. The result tells
    /// whether there was such a member.
    pub fn update_heartbeat(&mut self, node_id: NodeId, timestamp: u64) -> (r: Result<bool, CoreError>)
        ensures
            r == Ok::<bool, CoreError>(has_member(old(self)@.members, node_id.value)),
            final(self)@ == (MembershipView {
                members: spec_heartbeat(old(self)@.members, node_id.value, timestamp),
                ..old(self)@
            }),
    {
        match self.find(node_id) {
            Some(k) => {
                let mut m = self.members[k].duplicate();
                m.last_heartbeat = timestamp;
                if m.state == MemberState::Suspected {
                    m.state = MemberState::Active;
                }
                self.replace_at(k, m);
                Ok(true)
            },
            None => Ok(false),
        }
    }

    /// Marks every active member other than this node that has gone unheard
    /// for longer than the timeout at `current_time` as suspected; the
    /// result lists them in order.
    pub fn check_heartbeats(&mut self, current_time: u64) -> (r: Result<Vec<NodeId>, CoreError>)
        ensures
            r matches Ok(v) && crate::plan::dag::ids(v@) == spec_overdue(
                old(self)@.members,
                old(self)@.node,
                current_time,
                old(self)@.heartbeat_timeout_ms,
            ),
            final(self)@ == (MembershipView {
                members: spec_mark_overdue(
                    old(self)@.members,
                    old(self)@.node,
                    current_time,
                    old(self)@.heartbeat_timeout_ms,
                ),
                ..old(self)@
            }),
    {
        let ghost ms = self@.members;
        let own = self.node_id;
        let timeout = self.heartbeat_timeout_ms;
        let mut suspected: Vec<NodeId> = Vec::new();
        let mut i: usize = 0;
        while i < self.members.len()
            invariant
                ms == old(self)@.members,
                own.value == old(self)@.node,
                timeout == old(self)@.heartbeat_timeout_ms,
                self@.node == old(self)@.node,
                self@.heartbeat_timeout_ms == old(self)@.heartbeat_timeout_ms,
                i <= ms.len(),
                self@.members.len() == ms.len(),
                forall|j: int| 0 <= j < i ==> #[trigger] self@.members[j] == spec_mark_overdue(ms, own.value, current_time, timeout)[j],
                forall|j: int| i <= j < ms.len() ==> #[trigger] self@.members[j] == ms[j],
                crate::plan::dag::ids(suspected@) == spec_overdue(ms.take(i as int), own.value, current_time, timeout),
            decreases ms.len() - i,
        {
            proof {
                assert(ms.take(i + 1).drop_last() =~= ms.take(i as int));
                assert(self@.members[i as int] == ms[i as int]);
            }
            let ghost before = crate::plan::dag::ids(suspected@);
            let elapsed = current_time.saturating_sub(self.members[i].last_heartbeat);
            if self.members[i].node_id != own && self.members[i].is_active() && elapsed > timeout {
                let mut m = self.members[i].duplicate();
                m.state = MemberState::Suspected;
                suspected.push(m.node_id);
                self.replace_at(i, m);
                assert(crate::plan::dag::ids(suspected@) =~= before.push(ms[i as int].node));
            }
            i = i + 1;
        }
        proof {
            assert(ms.take(i as int) =~= ms);
            assert(self@.members =~= spec_mark_overdue(ms, own.value, current_time, timeout));
        }
        Ok(suspected)
    }

    /// The number of members.
    pub fn member_count(&self) -> (n: usize)
        ensures
            n == self@.members.len(),
    {
        self.members.len()
    }

    /// The number of active members.
    pub fn active_count(&self) -> (n: usize)
        ensures
            n == spec_active(self@.members).len(),
    {
        let ghost ms = self@.members;
        let mut n: usize = 0;
        let mut i: usize = 0;
        while i < self.members.len()
            invariant
                ms == member_views(self.members@),
                i <= ms.len(),
                n == spec_active(ms.take(i as int)).len(),
                n <= i,
            decreases ms.len() - i,
        {
            proof {
                reveal(Seq::filter);
                assert(ms.take(i + 1).drop_last() =~= ms.take(i as int));
            }
            if self.members[i].is_active() {
                n = n + 1;
            }
            i = i + 1;
        }
        assert(ms.take(i as int) =~= ms);
        n
    }

    /// Whether at least `quorum_size` members are active.
    pub fn has_quorum(&self, quorum_size: usize) -> (b: bool)
        ensures
            b == (spec_active(self@.members).len() >= quorum_size),
    {
        self.active_count() >= quorum_size
    }

    /// Sets the heartbeat timeout.
    pub fn set_heartbeat_timeout(&mut self, timeout_ms: u64)
        ensures
            final(self)@ == (MembershipView { heartbeat_timeout_ms: timeout_ms, ..old(self)@ }),
    {
        proof {
            use_type_invariant(&*self);
        }
        self.heartbeat_timeout_ms = timeout_ms;
    }
}

impl Default for Membership {
    /// A tracker for a fresh random node.
    fn default() -> (m: Self)
        ensures
            m@.members.len() == 0,
            m@.heartbeat_timeout_ms == 5000,
    {
        Membership::new(NodeId::new())
    }
}

/// A heartbeat check never removes a member and suspects exactly the members
/// it reports: each reported member is suspected afterwards, and a member
/// that was not overdue is left as it was.
pub proof fn lemma_check_suspects_reported(ms: Seq<MemberView>, own: u128, now: u64, timeout: u64, i: int)
    requires
        0 <= i < ms.len(),
    ensures
        spec_mark_overdue(ms, own, now, timeout).len() == ms.len(),
        is_overdue(ms[i], own, now, timeout) ==> spec_mark_overdue(ms, own, now, timeout)[i].state
            == MemberState::Suspected && spec_overdue(ms, own, now, timeout).contains(ms[i].node),
        !is_overdue(ms[i], own, now, timeout) ==> spec_mark_overdue(ms, own, now, timeout)[i] == ms[i],
    decreases ms.len(),
{
    if is_overdue(ms[i], own, now, timeout) {
        if i == ms.len() - 1 {
            let o = spec_overdue(ms, own, now, timeout);
            assert(o[o.len() - 1] == ms[i].node);
        } else {
            lemma_check_suspects_reported(ms.drop_last(), own, now, timeout, i);
            let o1 = spec_overdue(ms.drop_last(), own, now, timeout);
            let k = choose|k: int| 0 <= k < o1.len() && o1[k] == ms[i].node;
            assert(spec_overdue(ms, own, now, timeout)[k] == ms[i].node);
        }
    }
}

} // verus!
