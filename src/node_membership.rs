use vstd::prelude::*;
use crate::node::{NodeIdentity, ID};
use crate::ring::{
    KeyRing, points_distinct, point_of, ring_owner, ring_members, ring_replicas, ring_point, ring_new, ring_add,
    ring_remove, ring_get,
};

verus! {

/// Whether some node of `s` has the unique key `k`.
pub open spec fn has_key<Id: ID>(s: Seq<NodeIdentity<Id>>, k: Seq<char>) -> bool {
    exists|i: int| 0 <= i < s.len() && (#[trigger] s[i]).key() == k
}

/// The unique keys of the nodes of `s`.
pub open spec fn key_set<Id: ID>(s: Seq<NodeIdentity<Id>>) -> Set<Seq<char>> {
    Set::new(|k: Seq<char>| has_key(s, k))
}

/// No two nodes of `s` share a unique key.
pub open spec fn unique_keys<Id: ID>(s: Seq<NodeIdentity<Id>>) -> bool {
    forall|i: int, j: int| 0 <= i < j < s.len() ==> (#[trigger] s[i]).key() != (#[trigger] s[j]).key()
}

/// Whether a table with the members `s`, placing `replicas` points per node,
/// takes `n`: no member has its unique key, and none of its points
/// coincides with another point of the ring.
pub open spec fn admits<Id: ID>(s: Seq<NodeIdentity<Id>>, n: NodeIdentity<Id>, replicas: int) -> bool {
    !has_key(s, n.key()) && points_distinct(key_set(s).insert(n.key()), replicas)
}

/// The member list after adding `n`: unchanged where it is not admitted.
pub open spec fn added<Id: ID>(s: Seq<NodeIdentity<Id>>, n: NodeIdentity<Id>, replicas: int) -> Seq<NodeIdentity<Id>> {
    if admits(s, n, replicas) { s.push(n) } else { s }
}

/// The position of a node of `s` whose unique key is `k`.
pub open spec fn key_index<Id: ID>(s: Seq<NodeIdentity<Id>>, k: Seq<char>) -> int {
    choose|i: int| 0 <= i < s.len() && (#[trigger] s[i]).key() == k
}

/// The member list after removing the node with unique key `k`: unchanged
/// where there is none.
pub open spec fn removed<Id: ID>(s: Seq<NodeIdentity<Id>>, k: Seq<char>) -> Seq<NodeIdentity<Id>> {
    if has_key(s, k) { s.remove(key_index(s, k)) } else { s }
}

/// The live nodes of a cluster, and a consistent-hash ring over their keys
/// that always holds exactly those nodes.
pub struct NodeMembership<Id: ID> {
    nodes: Vec<NodeIdentity<Id>>,
    ring: KeyRing,
    replicas: isize,
}

impl<Id: ID> NodeMembership<Id> {
    /// The members, in the order they joined.
    pub closed spec fn members(&self) -> Seq<NodeIdentity<Id>> {
        self.nodes@
    }

    /// The unique keys of the nodes that the ring holds.
    pub closed spec fn ring_keys(&self) -> Set<Seq<char>> {
        ring_members(self.ring)
    }

    /// The number of ring points placed for each node.
    pub closed spec fn replicas(&self) -> int {
        ring_replicas(self.ring)
    }

    pub closed spec fn wf(&self) -> bool {
        &&& unique_keys(self.nodes@)
        &&& ring_members(self.ring) == key_set(self.nodes@)
        &&& ring_members(self.ring).finite()
        &&& ring_members(self.ring).len() == self.nodes@.len()
        &&& ring_replicas(self.ring) == self.replicas as int
        &&& self.replicas > 0
        &&& points_distinct(ring_members(self.ring), ring_replicas(self.ring))
    }

    /// An empty table whose ring places `replicas` points per node.
    pub fn new(replicas: isize) -> (r: Self)
        requires
            replicas > 0,
        ensures
            r.wf(),
            r.members() == Seq::<NodeIdentity<Id>>::empty(),
            r.replicas() == replicas as int,
    {
        let r = NodeMembership { nodes: Vec::new(), ring: ring_new(replicas), replicas };
        assert(key_set(r.nodes@) =~= Set::<Seq<char>>::empty());
        r
    }

    /// A table that holds the local node alone, where its ring points are
    /// pairwise distinct; else an empty table.
    pub fn for_local_node(current: NodeIdentity<Id>, replicas: isize) -> (r: Self)
        requires
            replicas > 0,
        ensures
            r.wf(),
            r.members() == added(Seq::empty(), current, replicas as int),
            r.replicas() == replicas as int,
    {
        let mut r = NodeMembership::new(replicas);
        let inserted = r.add_node(current);
        r
    }

    /// The number of members.
    pub fn len(&self) -> (r: usize)
        requires
            self.wf(),
        ensures
            r == self.members().len(),
    {
        self.nodes.len()
    }

    /// The position of the member whose unique key is `key`, if any.
    fn position_of(&self, key: &str) -> (r: Option<usize>)
        ensures
            match r {
                Some(i) => i < self.nodes@.len() && self.nodes@[i as int].key() == key@,
                None => !has_key(self.nodes@, key@),
            },
    {
        let mut i: usize = 0;
        while i < self.nodes.len()
            invariant
                i <= self.nodes@.len(),
                forall|j: int| 0 <= j < i ==> (#[trigger] self.nodes@[j]).key() != key@,
            decreases self.nodes@.len() - i,
        {
            if crate::node::str_eq(self.nodes[i].id.id(), key) {
                return Some(i);
            }
            i = i + 1;
        }
        None
    }

    /// Whether a member has the unique key of `node`.
    pub fn contains(&self, node: &NodeIdentity<Id>) -> (r: bool)
        ensures
            r == has_key(self.members(), node.key()),
    {
        self.position_of(node.id.id()).is_some()
    }

    /// Whether the ring points of a node with unique key `key`, not a
    /// member, coincide neither with each other nor with a member's point.
    pub fn points_fit(&self, key: &String) -> (r: bool)
        requires
            self.wf(),
            !has_key(self.members(), key@),
        ensures
            r == points_distinct(key_set(self.members()).insert(key@), self.replicas()),
    {
        let reps = self.replicas;
        let ghost keys = key_set(self.nodes@);
        let ghost all = keys.insert(key@);
        let mut mine: Vec<u64> = Vec::new();
        let mut i: isize = 0;
        while i < reps
            invariant
                0 <= i <= reps,
                mine@.len() == i,
                forall|j: int| 0 <= j < i ==> mine@[j] == point_of(key@, j),
            decreases reps - i,
        {
            mine.push(ring_point(key, i));
            i = i + 1;
        }
        let mut a: usize = 0;
        while a < mine.len()
            invariant
                mine@.len() == reps,
                forall|j: int| 0 <= j < reps ==> mine@[j] == point_of(key@, j),
                a <= mine@.len(),
                all == keys.insert(key@),
                keys == key_set(self.nodes@),
                reps as int == self.replicas(),
                forall|x: int, y: int| 0 <= y < x < a ==> point_of(key@, x) != point_of(key@, y),
            decreases mine@.len() - a,
        {
            let mut b: usize = 0;
            while b < a
                invariant
                    mine@.len() == reps,
                    forall|j: int| 0 <= j < reps ==> mine@[j] == point_of(key@, j),
                    a < mine@.len(),
                    b <= a,
                    all == keys.insert(key@),
                    keys == key_set(self.nodes@),
                    reps as int == self.replicas(),
                    forall|y: int| 0 <= y < b ==> point_of(key@, a as int) != point_of(key@, y),
                decreases a - b,
            {
                if mine[a] == mine[b] {
                    proof {
                        assert(all.contains(key@));
                        assert(point_of(key@, a as int) == point_of(key@, b as int));
                    }
                    return false;
                }
                b = b + 1;
            }
            a = a + 1;
        }
        let mut n: usize = 0;
        while n < self.nodes.len()
            invariant
                self.wf(),
                keys == key_set(self.nodes@),
                all == keys.insert(key@),
                !has_key(self.nodes@, key@),
                reps as int == self.replicas(),
                mine@.len() == reps,
                forall|j: int| 0 <= j < reps ==> mine@[j] == point_of(key@, j),
                forall|x: int, y: int| 0 <= y < reps && 0 <= x < reps && x != y ==> point_of(key@, x) != point_of(key@, y),
                n <= self.nodes@.len(),
                forall|m: int, x: int, y: int| 0 <= m < n && 0 <= x < reps && 0 <= y < reps
                    ==> #[trigger] point_of(self.nodes@[m].key(), x) != #[trigger] point_of(key@, y),
            decreases self.nodes@.len() - n,
        {
            let other = self.nodes[n].key_string();
            let mut x: isize = 0;
            while x < reps
                invariant
                    0 <= x <= reps,
                    n < self.nodes@.len(),
                    other@ == self.nodes@[n as int].key(),
                    all == key_set(self.nodes@).insert(key@),
                    !has_key(self.nodes@, key@),
                    reps as int == self.replicas(),
                    mine@.len() == reps,
                    forall|j: int| 0 <= j < reps ==> mine@[j] == point_of(key@, j),
                    forall|x2: int, y: int| 0 <= x2 < x && 0 <= y < reps
                        ==> #[trigger] point_of(other@, x2) != #[trigger] point_of(key@, y),
                decreases reps - x,
            {
                let p = ring_point(&other, x);
                let mut y: usize = 0;
                while y < mine.len()
                    invariant
                        mine@.len() == reps,
                        forall|j: int| 0 <= j < reps ==> mine@[j] == point_of(key@, j),
                        p == point_of(other@, x as int),
                        y <= mine@.len(),
                        0 <= x < reps,
                        n < self.nodes@.len(),
                        other@ == self.nodes@[n as int].key(),
                        all == key_set(self.nodes@).insert(key@),
                        !has_key(self.nodes@, key@),
                        reps as int == self.replicas(),
                        forall|y2: int| 0 <= y2 < y ==> p != #[trigger] point_of(key@, y2),
                    decreases mine@.len() - y,
                {
                    if mine[y] == p {
                        proof {
                            assert(self.nodes@[n as int].key() == other@);
                            assert(has_key(self.nodes@, other@));
                            assert(all.contains(other@));
                            assert(all.contains(key@));
                            assert(other@ != key@);
                            assert(point_of(other@, x as int) == point_of(key@, y as int));
                        }
                        return false;
                    }
                    y = y + 1;
                }
                x = x + 1;
            }
            n = n + 1;
        }
        proof {
            assert forall|k1: Seq<char>, i1: int, k2: Seq<char>, i2: int|
                all.contains(k1) && all.contains(k2) && 0 <= i1 < reps && 0 <= i2 < reps
                    && (k1 != k2 || i1 != i2) implies #[trigger] point_of(k1, i1) != #[trigger] point_of(k2, i2) by {
                if k1 != key@ && k2 != key@ {
                    assert(keys.contains(k1) && keys.contains(k2));
                } else if k1 == key@ && k2 == key@ {
                } else if k1 == key@ {
                    let m = choose|m: int| 0 <= m < self.nodes@.len() && (#[trigger] self.nodes@[m]).key() == k2;
                    assert(point_of(self.nodes@[m].key(), i2) != point_of(key@, i1));
                } else {
                    let m = choose|m: int| 0 <= m < self.nodes@.len() && (#[trigger] self.nodes@[m]).key() == k1;
                    assert(point_of(self.nodes@[m].key(), i1) != point_of(key@, i2));
                }
            }
        }
        true
    }

    /// Adds `node` to the list and to the ring as one step; `false`, and no
    /// change, where a member already has its unique key or one of its ring
    /// points would coincide with another.
    pub fn add_node(&mut self, node: NodeIdentity<Id>) -> (r: bool)
        requires
            old(self).wf(),
        ensures
            final(self).wf(),
            final(self).replicas() == old(self).replicas(),
            r == admits(old(self).members(), node, old(self).replicas()),
            final(self).members() == added(old(self).members(), node, old(self).replicas()),
    {
        if self.contains(&node) {
            return false;
        }
        let key = node.key_string();
        if !self.points_fit(&key) {
            return false;
        }
        proof {
            assert(!ring_members(self.ring).contains(key@));
        }
        ring_add(&mut self.ring, &key);
        let ghost before = self.nodes@;
        self.nodes.push(node);
        proof {
            let after = self.nodes@;
            assert(after[before.len() as int] == node);
            assert forall|k: Seq<char>| has_key(after, k) == (has_key(before, k) || k == node.key()) by {
                if has_key(before, k) {
                    let i = choose|i: int| 0 <= i < before.len() && (#[trigger] before[i]).key() == k;
                    assert(after[i] == before[i]);
                }
                if has_key(after, k) && k != node.key() {
                    let i = choose|i: int| 0 <= i < after.len() && (#[trigger] after[i]).key() == k;
                    assert(before[i] == after[i]);
                }
            }
            assert(key_set(after) =~= key_set(before).insert(key@));
            assert(unique_keys(after)) by {
                assert forall|i: int, j: int| 0 <= i < j < after.len() implies
                    (#[trigger] after[i]).key() != (#[trigger] after[j]).key() by {
                    if j == before.len() {
                        assert(after[i] == before[i]);
                    } else {
                        assert(after[i] == before[i]);
                        assert(after[j] == before[j]);
                    }
                }
            }
        }
        true
    }
    /// Removes the member with the unique key of `node` from the ring and the
    /// list as one step; `false`, and no change, where there is none.
    pub fn remove_node(&mut self, node: NodeIdentity<Id>) -> (r: bool)
        requires
            old(self).wf(),
        ensures
            final(self).wf(),
            final(self).replicas() == old(self).replicas(),
            r == has_key(old(self).members(), node.key()),
            final(self).members() == removed(old(self).members(), node.key()),
            key_set(final(self).members()) == key_set(old(self).members()).remove(node.key()),
    {
        let key = node.key_string();
        match self.position_of(key.as_str()) {
            None => {
                assert(key_set(self.nodes@) =~= key_set(self.nodes@).remove(node.key()));
                false
            },
            Some(index) => {
                ring_remove(&mut self.ring, &key);
                let ghost before = self.nodes@;
                let removed = self.nodes.remove(index);
                proof {
                    let after = self.nodes@;
                    let ix = index as int;
                    assert forall|j: int| 0 <= j < after.len() implies
                        #[trigger] after[j] == (if j < ix { before[j] } else { before[j + 1] }) by {}
                    assert forall|k: Seq<char>| has_key(after, k) == (has_key(before, k) && k != node.key()) by {
                        if has_key(after, k) {
                            let j = choose|j: int| 0 <= j < after.len() && (#[trigger] after[j]).key() == k;
                            if j < ix {
                                assert(before[j] == after[j]);
                            } else {
                                assert(before[j + 1] == after[j]);
                            }
                        }
                        if has_key(before, k) && k != node.key() {
                            let j = choose|j: int| 0 <= j < before.len() && (#[trigger] before[j]).key() == k;
                            if j < ix {
                                assert(after[j] == before[j]);
                            } else {
                                assert(j != ix);
                                assert(after[j - 1] == before[j]);
                            }
                        }
                    }
                    assert(key_set(after) =~= key_set(before).remove(key@));
                    lemma_points_distinct_subset(key_set(before), key_set(after), self.replicas as int);
                    assert(before[ix].key() == node.key());
                    assert(after == before.remove(ix));
                    let w = key_index(before, node.key());
                    assert(before[w].key() == node.key());
                    assert(w == ix);
                    assert(unique_keys(after)) by {
                        assert forall|i: int, j: int| 0 <= i < j < after.len() implies
                            (#[trigger] after[i]).key() != (#[trigger] after[j]).key() by {
                            let bi = if i < ix { i } else { i + 1 };
                            let bj = if j < ix { j } else { j + 1 };
                            assert(after[i] == before[bi]);
                            assert(after[j] == before[bj]);
                        }
                    }
                }
                true
            },
        }
    }

    /// A copy of the member whose unique key is `key`, if there is one.
    pub fn member_with_key(&self, key: &str) -> (r: Option<NodeIdentity<Id>>)
        requires
            self.wf(),
        ensures
            r is Some <==> has_key(self.members(), key@),
            r matches Some(n) ==> {
                let m = self.members()[key_index(self.members(), key@)];
                &&& n.key() == key@
                &&& n.addr == m.addr
                &&& vstd::pervasive::cloned(m.id, n.id)
            },
    {
        match self.position_of(key) {
            Some(i) => {
                let n = self.nodes[i].clone();
                proof {
                    let w = key_index(self.nodes@, key@);
                    assert(self.nodes@[w].key() == key@);
                    assert(w == i);
                }
                Some(n)
            },
            None => None,
        }
    }

    /// The member that the ring assigns to `key`: `None` only where the
    /// table is empty.
    pub fn get_node(&self, key: &str) -> (r: Option<NodeIdentity<Id>>)
        requires
            self.wf(),
        ensures
            r is None <==> self.members().len() == 0,
            r matches Some(n) ==> {
                let k = ring_owner(key_set(self.members()), self.replicas(), key@);
                let m = self.members()[key_index(self.members(), k)];
                &&& has_key(self.members(), k)
                &&& n.key() == k
                &&& n.addr == m.addr
                &&& vstd::pervasive::cloned(m.id, n.id)
            },
    {
        match ring_get(&self.ring, key.to_owned()) {
            None => None,
            Some(owner) => {
                proof {
                    assert(key_set(self.nodes@).contains(owner@));
                }
                self.member_with_key(owner.as_str())
            },
        }
    }

    /// The members, copied, in the order they joined.
    pub fn snapshot(&self) -> (r: Vec<NodeIdentity<Id>>)
        ensures
            r@.len() == self.members().len(),
            forall|i: int| 0 <= i < r@.len() ==> (#[trigger] r@[i]).key() == self.members()[i].key()
                && r@[i].addr == self.members()[i].addr
                && vstd::pervasive::cloned(self.members()[i].id, r@[i].id),
    {
        let mut out: Vec<NodeIdentity<Id>> = Vec::new();
        let mut i: usize = 0;
        while i < self.nodes.len()
            invariant
                i <= self.nodes@.len(),
                out@.len() == i,
                forall|j: int| 0 <= j < i ==> (#[trigger] out@[j]).key() == self.nodes@[j].key()
                    && out@[j].addr == self.nodes@[j].addr
                    && vstd::pervasive::cloned(self.nodes@[j].id, out@[j].id),
            decreases self.nodes@.len() - i,
        {
            out.push(self.nodes[i].clone());
            i = i + 1;
        }
        out
    }
}

} // verus!

verus! {

/// The member list after adding each node of `ns` in turn.
pub open spec fn added_all<Id: ID>(s: Seq<NodeIdentity<Id>>, ns: Seq<NodeIdentity<Id>>, replicas: int) -> Seq<NodeIdentity<Id>>
    decreases ns.len(),
{
    if ns.len() == 0 {
        s
    } else {
        added(added_all(s, ns.drop_last(), replicas), ns.last(), replicas)
    }
}

/// Appending a node adds its key to the key set.
pub proof fn lemma_key_set_push<Id: ID>(s: Seq<NodeIdentity<Id>>, n: NodeIdentity<Id>)
    ensures
        key_set(s.push(n)) == key_set(s).insert(n.key()),
{
    let after = s.push(n);
    assert(after[s.len() as int] == n);
    assert forall|k: Seq<char>| has_key(after, k) == (has_key(s, k) || k == n.key()) by {
        if has_key(s, k) {
            let i = choose|i: int| 0 <= i < s.len() && (#[trigger] s[i]).key() == k;
            assert(after[i] == s[i]);
        }
        if has_key(after, k) && k != n.key() {
            let i = choose|i: int| 0 <= i < after.len() && (#[trigger] after[i]).key() == k;
            assert(s[i] == after[i]);
        }
    }
    assert(key_set(after) =~= key_set(s).insert(n.key()));
}

/// Distinct points stay distinct on fewer nodes.
pub proof fn lemma_points_distinct_subset(a: Set<Seq<char>>, b: Set<Seq<char>>, replicas: int)
    requires
        points_distinct(a, replicas),
        b.subset_of(a),
    ensures
        points_distinct(b, replicas),
{
}

/// Adding a node that the table admits succeeds; adding it again right after
/// fails and changes nothing; the list has grown by exactly one.
pub proof fn lemma_add_twice<Id: ID>(s: Seq<NodeIdentity<Id>>, n: NodeIdentity<Id>, replicas: int)
    requires
        admits(s, n, replicas),
    ensures
        added(s, n, replicas) == s.push(n),
        !admits(added(s, n, replicas), n, replicas),
        added(added(s, n, replicas), n, replicas) == added(s, n, replicas),
        added(added(s, n, replicas), n, replicas).len() == s.len() + 1,
{
    assert(s.push(n)[s.len() as int] == n);
}

/// Once the node with key `k` is removed, no member has that key: a removed
/// node cannot be looked up, and removing it again changes nothing.
pub proof fn lemma_removed_is_gone<Id: ID>(s: Seq<NodeIdentity<Id>>, k: Seq<char>)
    requires
        unique_keys(s),
    ensures
        !has_key(removed(s, k), k),
        unique_keys(removed(s, k)),
        removed(removed(s, k), k) == removed(s, k),
{
    if has_key(s, k) {
        let w = key_index(s, k);
        let r = s.remove(w);
        assert forall|j: int| 0 <= j < r.len() implies (#[trigger] r[j]).key() != k by {
            if j < w {
                assert(r[j] == s[j]);
            } else {
                assert(r[j] == s[j + 1]);
            }
        }
        assert forall|i: int, j: int| 0 <= i < j < r.len() implies
            (#[trigger] r[i]).key() != (#[trigger] r[j]).key() by {
            let bi = if i < w { i } else { i + 1 };
            let bj = if j < w { j } else { j + 1 };
            assert(r[i] == s[bi]);
            assert(r[j] == s[bj]);
        }
    }
}

/// Adding distinct nodes, none of them a member and no two of all their
/// ring points alike, one after another: each add succeeds, and the list
/// ends as the old one followed by all of them.
pub proof fn lemma_distinct_adds<Id: ID>(s: Seq<NodeIdentity<Id>>, ns: Seq<NodeIdentity<Id>>, replicas: int)
    requires
        unique_keys(s + ns),
        points_distinct(key_set(s + ns), replicas),
    ensures
        added_all(s, ns, replicas) == s + ns,
        forall|i: int| 0 <= i < ns.len() ==> admits(s + ns.subrange(0, i), #[trigger] ns[i], replicas),
    decreases ns.len(),
{
    if ns.len() > 0 {
        let p = ns.drop_last();
        let all = s + ns;
        let last = ns.last();
        assert((s + p).push(last) =~= s + ns);
        lemma_key_set_push(s + p, last);
        assert(unique_keys(s + p)) by {
            assert forall|i: int, j: int| 0 <= i < j < (s + p).len() implies
                (#[trigger] (s + p)[i]).key() != (#[trigger] (s + p)[j]).key() by {
                assert((s + p)[i] == all[i]);
                assert((s + p)[j] == all[j]);
            }
        }
        lemma_points_distinct_subset(key_set(s + ns), key_set(s + p), replicas);
        lemma_distinct_adds(s, p, replicas);
        assert(all[all.len() - 1] == last);
        assert(!has_key(s + p, last.key())) by {
            if has_key(s + p, last.key()) {
                let i = choose|i: int| 0 <= i < (s + p).len() && (#[trigger] (s + p)[i]).key() == last.key();
                assert((s + p)[i] == all[i]);
            }
        }
        assert(admits(s + p, last, replicas));
        assert forall|i: int| 0 <= i < ns.len() implies admits(s + ns.subrange(0, i), #[trigger] ns[i], replicas) by {
            if i < ns.len() - 1 {
                assert(ns.subrange(0, i) =~= p.subrange(0, i));
                assert(ns[i] == p[i]);
            } else {
                assert(ns.subrange(0, i) =~= p);
            }
        }
    }
}

impl<Id: ID> NodeMembership<Id> {
    /// The ring holds exactly the nodes of the list: every lookup answers a
    /// listed node, and a node that is not listed is never answered.
    pub proof fn lemma_ring_mirrors_list(&self)
        requires
            self.wf(),
        ensures
            unique_keys(self.members()),
            self.replicas() > 0,
            points_distinct(key_set(self.members()), self.replicas()),
            self.ring_keys() == key_set(self.members()),
            self.ring_keys().len() == self.members().len(),
    {
    }
}

} // verus!
