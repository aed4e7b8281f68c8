use vstd::prelude::*;
use crate::node::{Endpoint, NodeIdentity, ID};
use crate::node_membership::{NodeMembership, added, admits, removed, has_key, unique_keys, lemma_removed_is_gone};

verus! {

/// A span of time, as whole seconds and the nanoseconds beyond them.
#[derive(Clone, Copy, Debug, PartialEq, Eq, Hash, Structural)]
pub struct Delay {
    pub secs: u64,
    pub nanos: u32,
}

/// One input of the gossip event loop.
pub enum Input<T> {
    /// A timer that the protocol engine asked for has run out.
    TimerFired(T),
    /// A datagram arrived from the network.
    PacketArrived(Vec<u8>),
    /// A request to announce this node to the node at an endpoint whose
    /// logical identity is not known.
    Announce(Endpoint),
}

/// A membership notification of the protocol engine.
pub enum Notice<Id: ID> {
    MemberUp(NodeIdentity<Id>),
    MemberDown(NodeIdentity<Id>),
    /// Any other notification: it does not change the membership.
    Other,
}

/// What the event loop does after an engine invocation.
pub enum Action<T> {
    /// Hand a datagram to the outbound queue.
    Send(Endpoint, Vec<u8>),
    /// Re-inject `TimerFired` with the token once the delay has passed.
    Schedule(Delay, T),
    /// Log the member list, which the batch of notifications changed.
    LogMembers,
}

/// The member list after one notice, on a ring of `replicas` points per node.
pub open spec fn apply_notice<Id: ID>(s: Seq<NodeIdentity<Id>>, n: Notice<Id>, replicas: int) -> Seq<NodeIdentity<Id>> {
    match n {
        Notice::MemberUp(m) => added(s, m, replicas),
        Notice::MemberDown(m) => removed(s, m.key()),
        Notice::Other => s,
    }
}

/// Whether one notice changes the member list.
pub open spec fn notice_changes<Id: ID>(s: Seq<NodeIdentity<Id>>, n: Notice<Id>, replicas: int) -> bool {
    match n {
        Notice::MemberUp(m) => admits(s, m, replicas),
        Notice::MemberDown(m) => has_key(s, m.key()),
        Notice::Other => false,
    }
}

/// The member list after a batch of notices, in the order they were emitted.
pub open spec fn apply_notices<Id: ID>(s: Seq<NodeIdentity<Id>>, ns: Seq<Notice<Id>>, replicas: int) -> Seq<NodeIdentity<Id>>
    decreases ns.len(),
{
    if ns.len() == 0 {
        s
    } else {
        apply_notices(apply_notice(s, ns[0], replicas), ns.drop_first(), replicas)
    }
}

/// Whether some notice of a batch, in emitted order, changes the member list
/// at its turn.
pub open spec fn notices_change<Id: ID>(s: Seq<NodeIdentity<Id>>, ns: Seq<Notice<Id>>, replicas: int) -> bool
    decreases ns.len(),
{
    if ns.len() == 0 {
        false
    } else {
        notice_changes(s, ns[0], replicas) || notices_change(apply_notice(s, ns[0], replicas), ns.drop_first(), replicas)
    }
}

impl<Id: ID> NodeMembership<Id> {
    /// Applies one notice: a node that is up is added, one that is down is
    /// removed, any other notice is ignored. Returns whether the list changed.
    pub fn apply_notice(&mut self, notice: Notice<Id>) -> (r: bool)
        requires
            old(self).wf(),
        ensures
            final(self).wf(),
            final(self).replicas() == old(self).replicas(),
            final(self).members() == apply_notice(old(self).members(), notice, old(self).replicas()),
            r == notice_changes(old(self).members(), notice, old(self).replicas()),
    {
        match notice {
            Notice::MemberUp(node) => self.add_node(node),
            Notice::MemberDown(node) => self.remove_node(node),
            Notice::Other => false,
        }
    }

    /// Drains a batch of notices, in the order they were emitted, into the table.
    /// Returns whether any of them changed the member list.
    pub fn apply_notifications(&mut self, notices: &mut Vec<Notice<Id>>) -> (r: bool)
        requires
            old(self).wf(),
        ensures
            final(self).wf(),
            final(self).replicas() == old(self).replicas(),
            final(self).members() == apply_notices(old(self).members(), old(notices)@, old(self).replicas()),
            r == notices_change(old(self).members(), old(notices)@, old(self).replicas()),
            final(notices)@.len() == 0,
    {
        let mut changed = false;
        while notices.len() > 0
            invariant
                self.wf(),
                self.replicas() == old(self).replicas(),
                apply_notices(self.members(), notices@, self.replicas())
                    == apply_notices(old(self).members(), old(notices)@, old(self).replicas()),
                (changed || notices_change(self.members(), notices@, self.replicas()))
                    == notices_change(old(self).members(), old(notices)@, old(self).replicas()),
            decreases notices@.len(),
        {
            let ghost before = notices@;
            let notice = notices.remove(0);
            assert(notices@ == before.drop_first());
            let c = self.apply_notice(notice);
            changed = changed || c;
        }
        changed
    }
}

/// The send actions for a batch of datagrams, in the order asked.
pub open spec fn send_actions<T>(s: Seq<(Endpoint, Vec<u8>)>) -> Seq<Action<T>> {
    Seq::new(s.len(), |i: int| Action::Send(s[i].0, s[i].1))
}

/// The schedule actions for a batch of timers, in the order asked.
pub open spec fn schedule_actions<T>(s: Seq<(Delay, T)>) -> Seq<Action<T>> {
    Seq::new(s.len(), |i: int| Action::Schedule(s[i].0, s[i].1))
}

/// What one engine invocation asked for: datagrams to send, timers to
/// schedule and membership notifications, each in the order asked.
pub struct EngineOutputs<Id: ID, T> {
    pub to_send: Vec<(Endpoint, Vec<u8>)>,
    pub to_schedule: Vec<(Delay, T)>,
    pub notifications: Vec<Notice<Id>>,
}

impl<Id: ID, T> EngineOutputs<Id, T> {
    pub open spec fn is_empty(&self) -> bool {
        &&& self.to_send@.len() == 0
        &&& self.to_schedule@.len() == 0
        &&& self.notifications@.len() == 0
    }

    pub fn new() -> (r: Self)
        ensures
            r.is_empty(),
    {
        EngineOutputs { to_send: Vec::new(), to_schedule: Vec::new(), notifications: Vec::new() }
    }

    /// Records a membership notification.
    pub fn notify(&mut self, notice: Notice<Id>)
        ensures
            final(self).notifications@ == old(self).notifications@.push(notice),
            final(self).to_send@ == old(self).to_send@,
            final(self).to_schedule@ == old(self).to_schedule@,
    {
        self.notifications.push(notice);
    }

    /// Records a datagram for the endpoint of `to`, copying its bytes.
    pub fn send_to(&mut self, to: NodeIdentity<Id>, data: &[u8])
        ensures
            final(self).to_send@ == old(self).to_send@.push((to.addr, final(self).to_send@.last().1)),
            final(self).to_send@.last().1@ == data@,
            final(self).to_schedule@ == old(self).to_schedule@,
            final(self).notifications@ == old(self).notifications@,
    {
        let mut packet: Vec<u8> = Vec::new();
        let mut i: usize = 0;
        while i < data.len()
            invariant
                i <= data@.len(),
                packet@ == data@.subrange(0, i as int),
            decreases data@.len() - i,
        {
            packet.push(data[i]);
            i = i + 1;
        }
        assert(packet@ == data@);
        self.to_send.push((to.addr, packet));
    }

    /// Records a timer to be delivered back after `after`.
    pub fn submit_after(&mut self, timer: T, after: Delay)
        ensures
            final(self).to_schedule@ == old(self).to_schedule@.push((after, timer)),
            final(self).to_send@ == old(self).to_send@,
            final(self).notifications@ == old(self).notifications@,
    {
        self.to_schedule.push((after, timer));
    }

    /// Drains what one engine invocation asked for, in a fixed order: the
    /// datagrams become send actions, then the timers become schedule
    /// actions, then the notifications are applied to the table, and where
    /// they changed it a single `LogMembers` action ends the list. Each
    /// buffer is drained in the order it was filled.
    pub fn drain_into(&mut self, table: &mut NodeMembership<Id>) -> (r: Vec<Action<T>>)
        requires
            old(table).wf(),
        ensures
            final(self).is_empty(),
            final(table).wf(),
            final(table).replicas() == old(table).replicas(),
            final(table).members() == apply_notices(old(table).members(), old(self).notifications@, old(table).replicas()),
            r@ == send_actions::<T>(old(self).to_send@) + schedule_actions(old(self).to_schedule@) + (
            if notices_change(old(table).members(), old(self).notifications@, old(table).replicas()) {
                seq![Action::LogMembers]
            } else {
                Seq::<Action<T>>::empty()
            }),
    {
        let mut out: Vec<Action<T>> = Vec::new();
        let ghost sends = self.to_send@;
        let ghost timers = self.to_schedule@;
        while self.to_send.len() > 0
            invariant
                self.to_send@ == sends.subrange(out@.len() as int, sends.len() as int),
                out@ == send_actions::<T>(sends).subrange(0, out@.len() as int),
                out@.len() <= sends.len(),
                self.to_schedule@ == timers,
                self.notifications@ == old(self).notifications@,
                *table == *old(table),
            decreases self.to_send@.len(),
        {
            let ghost rest = self.to_send@;
            let (dst, data) = self.to_send.remove(0);
            assert(self.to_send@ =~= rest.drop_first());
            out.push(Action::Send(dst, data));
            assert(out@ =~= send_actions::<T>(sends).subrange(0, out@.len() as int));
        }
        assert(out@ =~= send_actions::<T>(sends));
        let ghost n = out@.len();
        while self.to_schedule.len() > 0
            invariant
                n == sends.len(),
                n <= out@.len(),
                self.to_schedule@ == timers.subrange(out@.len() - n, timers.len() as int),
                out@ == send_actions::<T>(sends) + schedule_actions(timers).subrange(0, out@.len() - n),
                out@.len() - n <= timers.len(),
                self.to_send@.len() == 0,
                self.notifications@ == old(self).notifications@,
                *table == *old(table),
            decreases self.to_schedule@.len(),
        {
            let ghost rest = self.to_schedule@;
            let (delay, timer) = self.to_schedule.remove(0);
            assert(self.to_schedule@ =~= rest.drop_first());
            out.push(Action::Schedule(delay, timer));
            assert(out@ =~= send_actions::<T>(sends) + schedule_actions(timers).subrange(0, out@.len() - n));
        }
        assert(out@ =~= send_actions::<T>(sends) + schedule_actions(timers));
        let changed = table.apply_notifications(&mut self.notifications);
        if changed {
            out.push(Action::LogMembers);
        }
        assert(out@ =~= send_actions::<T>(sends) + schedule_actions(timers) + (if changed {
            seq![Action::LogMembers]
        } else {
            Seq::<Action<T>>::empty()
        }));
        out
    }
}

/// Whether a notice speaks of a node outside the cluster of `local`.
pub open spec fn is_foreign<Id: ID>(local: NodeIdentity<Id>, n: Notice<Id>) -> bool {
    match n {
        Notice::MemberUp(m) => m.id.prefix_view() != local.id.prefix_view(),
        Notice::MemberDown(m) => m.id.prefix_view() != local.id.prefix_view(),
        Notice::Other => false,
    }
}

/// Keeps clusters apart: a notice about a node whose prefix differs from the
/// local node's becomes `Other`, so it never touches the table; any other
/// notice passes unchanged.
pub fn admit_notice<Id: ID>(local: &NodeIdentity<Id>, notice: Notice<Id>) -> (r: Notice<Id>)
    ensures
        is_foreign(*local, notice) ==> r is Other,
        !is_foreign(*local, notice) ==> r == notice,
{
    let same = match &notice {
        Notice::MemberUp(m) => m.has_same_prefix(local),
        Notice::MemberDown(m) => m.has_same_prefix(local),
        Notice::Other => true,
    };
    if same {
        notice
    } else {
        Notice::Other
    }
}

/// A notice delivered again after its change was applied, as a stale timer
/// may bring about, changes nothing: no membership change is applied twice.
pub proof fn lemma_replayed_notice_is_noop<Id: ID>(s: Seq<NodeIdentity<Id>>, n: Notice<Id>, replicas: int)
    requires
        unique_keys(s),
    ensures
        !notice_changes(apply_notice(s, n, replicas), n, replicas),
        apply_notice(apply_notice(s, n, replicas), n, replicas) == apply_notice(s, n, replicas),
{
    match n {
        Notice::MemberUp(m) => {
            if admits(s, m, replicas) {
                assert(s.push(m)[s.len() as int] == m);
            }
        },
        Notice::MemberDown(m) => {
            lemma_removed_is_gone(s, m.key());
        },
        Notice::Other => {},
    }
}

/// Applying a batch is applying its first part, then the rest.
pub proof fn lemma_apply_notices_concat<Id: ID>(
    s: Seq<NodeIdentity<Id>>,
    a: Seq<Notice<Id>>,
    c: Seq<Notice<Id>>,
    replicas: int,
)
    ensures
        apply_notices(s, a + c, replicas) == apply_notices(apply_notices(s, a, replicas), c, replicas),
    decreases a.len(),
{
    if a.len() == 0 {
        assert(a + c =~= c);
    } else {
        assert((a + c)[0] == a[0]);
        assert((a + c).drop_first() =~= a.drop_first() + c);
        lemma_apply_notices_concat(apply_notice(s, a[0], replicas), a.drop_first(), c, replicas);
    }
}

/// Whether a notice takes the node with key `k` down.
pub open spec fn takes_down<Id: ID>(n: Notice<Id>, k: Seq<char>) -> bool {
    n matches Notice::MemberDown(m) && m.key() == k
}

/// A member stays a member through notices none of which takes its key down.
pub proof fn lemma_member_kept<Id: ID>(s: Seq<NodeIdentity<Id>>, ns: Seq<Notice<Id>>, k: Seq<char>, replicas: int)
    requires
        has_key(s, k),
        forall|j: int| 0 <= j < ns.len() ==> !takes_down(#[trigger] ns[j], k),
    ensures
        has_key(apply_notices(s, ns, replicas), k),
    decreases ns.len(),
{
    if ns.len() > 0 {
        let i = choose|i: int| 0 <= i < s.len() && (#[trigger] s[i]).key() == k;
        let next = apply_notice(s, ns[0], replicas);
        assert(!takes_down(ns[0], k));
        match ns[0] {
            Notice::MemberUp(m) => {
                if admits(s, m, replicas) {
                    assert(s.push(m)[i] == s[i]);
                }
            },
            Notice::MemberDown(m) => {
                if has_key(s, m.key()) {
                    let w = crate::node_membership::key_index(s, m.key());
                    assert(s[w].key() == m.key());
                    assert(w != i);
                    if i < w {
                        assert(s.remove(w)[i] == s[i]);
                    } else {
                        assert(s.remove(w)[i - 1] == s[i]);
                    }
                }
            },
            Notice::Other => {},
        }
        assert(has_key(next, k));
        assert forall|j: int| 0 <= j < ns.drop_first().len() implies !takes_down(#[trigger] ns.drop_first()[j], k) by {
            assert(ns.drop_first()[j] == ns[j + 1]);
        }
        lemma_member_kept(next, ns.drop_first(), k, replicas);
    }
}

/// After a batch in which node `b` came up and no later notice took its key
/// down, `b`'s key is a member, unless the table refused `b` when it came
/// up (its points would have clashed).
pub proof fn lemma_up_node_is_member<Id: ID>(
    s: Seq<NodeIdentity<Id>>,
    before: Seq<Notice<Id>>,
    b: NodeIdentity<Id>,
    after: Seq<Notice<Id>>,
    replicas: int,
)
    requires
        forall|j: int| 0 <= j < after.len() ==> !takes_down(#[trigger] after[j], b.key()),
    ensures
        ({
            let m = apply_notices(s, before, replicas);
            (has_key(m, b.key()) || admits(m, b, replicas)) ==> has_key(
                apply_notices(s, before + seq![Notice::MemberUp(b)] + after, replicas),
                b.key(),
            )
        }),
{
    let m = apply_notices(s, before, replicas);
    let up = seq![Notice::MemberUp(b)];
    lemma_apply_notices_concat(s, before + up, after, replicas);
    lemma_apply_notices_concat(s, before, up, replicas);
    assert(up.drop_first() =~= Seq::<Notice<Id>>::empty());
    let m1 = apply_notice(m, Notice::MemberUp(b), replicas);
    assert(up[0] == Notice::MemberUp(b));
    assert(apply_notices(m1, up.drop_first(), replicas) == m1);
    assert(apply_notices(m, up, replicas) == m1);
    if has_key(m, b.key()) || admits(m, b, replicas) {
        if admits(m, b, replicas) {
            assert(m.push(b)[m.len() as int] == b);
        }
        assert(has_key(m1, b.key()));
        lemma_member_kept(m1, after, b.key(), replicas);
    }
}

/// The input that bootstrap enqueues: an announce to the seed endpoint, where
/// one was configured.
pub fn bootstrap_input<T>(seed: Option<Endpoint>) -> (r: Option<Input<T>>)
    ensures
        seed is None ==> r is None,
        seed matches Some(e) ==> r matches Some(Input::Announce(a)) && a == e,
{
    match seed {
        Some(e) => Some(Input::Announce(e)),
        None => None,
    }
}

} // verus!
