use vstd::prelude::*;
use vstd::arithmetic::div_mod::{
    lemma_add_mod_noop, lemma_fundamental_div_mod, lemma_mod_multiples_vanish, lemma_small_mod,
};
use vstd::arithmetic::mul::{lemma_mul_inequality, lemma_mul_is_distributive_add_other_way};

verus! {

/// First partition index of the share of the `k`-th member (in join order)
/// when `p` partitions are spread over `m` members: the first `p % m`
/// members get `p / m + 1` partitions, the others `p / m`.
pub open spec fn share_start(k: int, p: int, m: int) -> int
    recommends
        m > 0,
{
    k * (p / m) + if k < p % m {
        k
    } else {
        p % m
    }
}

/// The member (by join position) that owns partition index `i`.
pub open spec fn owns(k: int, i: int, p: int, m: int) -> bool {
    0 <= k < m && share_start(k, p, m) <= i < share_start(k + 1, p, m)
}

/// Number of partitions in the share of the `k`-th member.
pub open spec fn share_size(k: int, p: int, m: int) -> int {
    share_start(k + 1, p, m) - share_start(k, p, m)
}

/// Some member owns partition index `i`.
pub open spec fn has_owner(i: int, p: int, m: int) -> bool {
    exists|k: int| owns(k, i, p, m)
}

/// A consumer group: its members in join order and the number of partitions
/// of its topic. Partitions are spread over the members in contiguous runs,
/// in ascending order, following the join order; a membership change
/// reassigns them.
#[derive(Debug)]
pub struct ConsumerGroup {
    group_id: u32,
    name: String,
    members: Vec<u32>,
    /// For each member, by join position, where it is in its share.
    cursors: Vec<u32>,
    partitions_count: u32,
}

pub struct ConsumerGroupView {
    pub group_id: u32,
    pub members: Seq<u32>,
    pub cursors: Seq<u32>,
    pub partitions_count: u32,
}

impl View for ConsumerGroup {
    type V = ConsumerGroupView;

    closed spec fn view(&self) -> ConsumerGroupView {
        ConsumerGroupView {
            group_id: self.group_id,
            members: self.members@,
            cursors: self.cursors@,
            partitions_count: self.partitions_count,
        }
    }
}

/// Members are distinct, and each has a cursor.
pub open spec fn group_inv(v: ConsumerGroupView) -> bool {
    v.members.no_duplicates() && v.cursors.len() == v.members.len()
}

/// The group after `member` joins: it comes last in join order, at the start
/// of its share. Joining twice changes nothing.
pub open spec fn joined(v: ConsumerGroupView, member: u32) -> ConsumerGroupView {
    if v.members.contains(member) {
        v
    } else {
        ConsumerGroupView { members: v.members.push(member), cursors: v.cursors.push(0), ..v }
    }
}

/// The group after `member` leaves; leaving when not a member changes nothing.
pub open spec fn left(v: ConsumerGroupView, member: u32) -> ConsumerGroupView {
    match v.members.index_of_first(member) {
        Some(k) => ConsumerGroupView { members: v.members.remove(k), cursors: v.cursors.remove(k), ..v },
        None => v,
    }
}

/// The partition index that `member` polls next: the one its cursor points
/// at, within its share; `None` for a stranger or an empty share.
pub open spec fn current_partition(v: ConsumerGroupView, member: u32) -> Option<u32> {
    let s = assigned_partitions(v, member);
    match v.members.index_of_first(member) {
        Some(k) if s.len() > 0 => Some(s[v.cursors[k] as int % s.len() as int]),
        _ => None,
    }
}

/// The group after `member` has polled: its cursor moves to the next
/// partition of its share, back to the first after the last.
pub open spec fn advanced(v: ConsumerGroupView, member: u32) -> ConsumerGroupView {
    let s = assigned_partitions(v, member);
    match v.members.index_of_first(member) {
        Some(k) if s.len() > 0 => ConsumerGroupView {
            cursors: v.cursors.update(k, ((v.cursors[k] as int % s.len() as int + 1) % s.len() as int) as u32),
            ..v
        },
        _ => v,
    }
}

/// Where a cursor that starts at `start` points after `t` polls in a share of
/// `len` partitions.
pub open spec fn rotation(start: int, len: int, t: nat) -> int
    decreases t,
{
    if t == 0 {
        start % len
    } else {
        (rotation(start, len, (t - 1) as nat) + 1) % len
    }
}

proof fn lemma_rotation_closed(start: int, len: int, t: nat)
    requires
        len > 0,
    ensures
        rotation(start, len, t) == (start + t) % len,
    decreases t,
{
    if t > 0 {
        lemma_rotation_closed(start, len, (t - 1) as nat);
        lemma_add_mod_noop(start + t - 1, 1, len);
        lemma_add_mod_noop(start + t - 1, 0, len);
        if len > 1 {
            lemma_small_mod(1, len as nat);
        }
        assert(((start + t - 1) % len + 1) % len == (start + t) % len) by {
            if len == 1 {
                assert(((start + t - 1) % len + 1) % len == 0);
                assert((start + t) % len == 0);
            }
        }
    }
}

/// Rotation reaches every partition of a share: within `len` polls the
/// cursor points at each of the `len` partitions.
pub proof fn lemma_rotation_visits_share(start: int, len: int, j: int)
    requires
        len > 0,
        start >= 0,
        0 <= j < len,
    ensures
        exists|t: nat| t < len && #[trigger] rotation(start, len, t) == j,
{
    lemma_fundamental_div_mod(start, len);
    let q = start / len;
    let s0 = start % len;
    let t: nat = if j >= s0 { (j - s0) as nat } else { (j + len - s0) as nat };
    lemma_rotation_closed(start, len, t);
    if j >= s0 {
        assert(start + t == len * q + j);
        lemma_mod_multiples_vanish(q, j, len);
    } else {
        assert(start + t == len * (q + 1) + j) by (nonlinear_arith)
            requires
                start == len * q + s0,
                t == j + len - s0,
        ;
        lemma_mod_multiples_vanish(q + 1, j, len);
    }
    lemma_small_mod(j as nat, len as nat);
    assert(rotation(start, len, t) == j);
}

/// The group after `member` has polled `t` times.
pub open spec fn advanced_times(v: ConsumerGroupView, member: u32, t: nat) -> ConsumerGroupView
    decreases t,
{
    if t == 0 {
        v
    } else {
        advanced(advanced_times(v, member, (t - 1) as nat), member)
    }
}

proof fn lemma_advanced_times(v: ConsumerGroupView, member: u32, k: int, t: nat)
    requires
        group_inv(v),
        v.members.index_of_first(member) == Some(k),
        assigned_partitions(v, member).len() > 0,
    ensures
        advanced_times(v, member, t).members == v.members,
        advanced_times(v, member, t).partitions_count == v.partitions_count,
        advanced_times(v, member, t).cursors.len() == v.cursors.len(),
        advanced_times(v, member, t).cursors[k] as int % assigned_partitions(v, member).len() as int
            == rotation(v.cursors[k] as int, assigned_partitions(v, member).len() as int, t),
    decreases t,
{
    v.members.index_of_first_ensures(member);
    if t > 0 {
        lemma_advanced_times(v, member, k, (t - 1) as nat);
        let w = advanced_times(v, member, (t - 1) as nat);
        let len = assigned_partitions(v, member).len() as int;
        assert(assigned_partitions(w, member) == assigned_partitions(v, member));
        let p = v.partitions_count as int;
        let m = v.members.len() as int;
        lemma_share_bounds(k, p, m);
        lemma_share_bounds(k + 1, p, m);
        lemma_share_monotone(k, k + 1, p, m);
        assert(len <= u32::MAX);
        let c = w.cursors[k] as int;
        let r = rotation(v.cursors[k] as int, len, (t - 1) as nat);
        assert(c % len == r);
        vstd::arithmetic::div_mod::lemma_mod_bound(r + 1, len);
        let next = (r + 1) % len;
        assert(advanced_times(v, member, t).cursors[k] as int == next);
        lemma_small_mod(next as nat, len as nat);
    }
}

/// A member that keeps polling reaches every partition of its share: for
/// each partition index in the share there is a number of polls, fewer than
/// the share's size, after which it is the one polled next.
pub proof fn lemma_member_polls_whole_share(v: ConsumerGroupView, member: u32, j: int)
    requires
        group_inv(v),
        v.members.contains(member),
        0 <= j < assigned_partitions(v, member).len(),
    ensures
        exists|t: nat|
            t < assigned_partitions(v, member).len() && #[trigger] current_partition(
                advanced_times(v, member, t),
                member,
            ) == Some(assigned_partitions(v, member)[j]),
{
    v.members.index_of_first_ensures(member);
    let k = v.members.index_of_first(member)->Some_0;
    let s = assigned_partitions(v, member);
    let len = s.len() as int;
    lemma_rotation_visits_share(v.cursors[k] as int, len, j);
    let t = choose|t: nat| t < len && #[trigger] rotation(v.cursors[k] as int, len, t) == j;
    lemma_advanced_times(v, member, k, t);
    let w = advanced_times(v, member, t);
    assert(w.members.index_of_first(member) == Some(k));
    assert(assigned_partitions(w, member) == s);
    assert(w.cursors[k] as int % len == j);
    assert(current_partition(w, member) == Some(s[j]));
}

/// The partitions that a member owns: empty for a stranger, else the run of
/// indexes of its share.
pub open spec fn assigned_partitions(v: ConsumerGroupView, member: u32) -> Seq<u32> {
    let k = v.members.index_of_first(member);
    match k {
        None => Seq::empty(),
        Some(k) => {
            let m = v.members.len() as int;
            let p = v.partitions_count as int;
            let s = share_start(k, p, m);
            Seq::new((share_start(k + 1, p, m) - s) as nat, |i: int| (s + i) as u32)
        },
    }
}

proof fn lemma_share_step(k: int, p: int, m: int)
    requires
        m > 0,
        p >= 0,
        0 <= k,
    ensures
        share_start(k + 1, p, m) - share_start(k, p, m) == p / m + if k < p % m {
            1int
        } else {
            0int
        },
{
    lemma_mul_is_distributive_add_other_way(p / m, k, 1);
}

pub proof fn lemma_share_bounds(k: int, p: int, m: int)
    requires
        m > 0,
        p >= 0,
        0 <= k <= m,
    ensures
        0 <= share_start(k, p, m) <= p,
        k == m ==> share_start(k, p, m) == p,
{
    lemma_fundamental_div_mod(p, m);
    assert(p / m >= 0) by (nonlinear_arith)
        requires
            m > 0,
            p >= 0,
    ;
    lemma_mul_inequality(k, m, p / m);
    assert(k * (p / m) >= 0) by (nonlinear_arith)
        requires
            k >= 0,
            p / m >= 0,
    ;
    assert(m * (p / m) == (p / m) * m) by (nonlinear_arith);
}

pub proof fn lemma_share_monotone(a: int, b: int, p: int, m: int)
    requires
        m > 0,
        p >= 0,
        0 <= a <= b,
    ensures
        share_start(a, p, m) <= share_start(b, p, m),
    decreases b - a,
{
    if a < b {
        lemma_share_step(a, p, m);
        assert(p / m >= 0) by (nonlinear_arith)
            requires
                m > 0,
                p >= 0,
        ;
        lemma_share_monotone(a + 1, b, p, m);
    }
}

proof fn lemma_owner_exists(i: int, j: int, p: int, m: int) -> (k: int)
    requires
        m > 0,
        p >= 0,
        0 <= j <= m,
        0 <= i < share_start(j, p, m),
    ensures
        0 <= k < j,
        owns(k, i, p, m),
    decreases j,
{
    lemma_share_bounds(0, p, m);
    assert(0 * (p / m) == 0);
    if j == 0 {
        assert(false);
        0
    } else if share_start(j - 1, p, m) <= i {
        j - 1
    } else {
        lemma_owner_exists(i, j - 1, p, m)
    }
}

/// Group assignment: with at least one member, every partition index below
/// `p` is owned by exactly one member, and the numbers of partitions that two
/// members own differ by at most one.
pub proof fn lemma_assignment_balanced(p: int, m: int)
    requires
        m > 0,
        p >= 0,
    ensures
        forall|i: int| 0 <= i < p ==> #[trigger] has_owner(i, p, m),
        forall|i: int, k1: int, k2: int| #[trigger] owns(k1, i, p, m) && #[trigger] owns(k2, i, p, m) ==> k1 == k2,
        forall|k1: int, k2: int|
            0 <= k1 < m && 0 <= k2 < m ==> #[trigger] share_size(k1, p, m) - #[trigger] share_size(
                k2,
                p,
                m,
            ) <= 1,
{
    assert forall|i: int| 0 <= i < p implies #[trigger] has_owner(i, p, m) by {
        lemma_share_bounds(m, p, m);
        let k = lemma_owner_exists(i, m, p, m);
    }
    assert forall|i: int, k1: int, k2: int| #[trigger] owns(k1, i, p, m) && #[trigger] owns(k2, i, p, m) implies k1 == k2 by {
        if k1 < k2 {
            lemma_share_monotone(k1 + 1, k2, p, m);
        } else if k2 < k1 {
            lemma_share_monotone(k2 + 1, k1, p, m);
        }
    }
    assert forall|k1: int, k2: int| 0 <= k1 < m && 0 <= k2 < m implies #[trigger] share_size(k1, p, m)
        - #[trigger] share_size(k2, p, m) <= 1 by {
        lemma_share_step(k1, p, m);
        lemma_share_step(k2, p, m);
    }
}

impl ConsumerGroup {
    /// Members are distinct, and each has a cursor.
    pub open spec fn wf(&self) -> bool {
        group_inv(self@)
    }

    /// A group with no members over `partitions_count` partitions.
    pub fn new(group_id: u32, name: String, partitions_count: u32) -> (r: ConsumerGroup)
        ensures
            r.wf(),
            r@.group_id == group_id,
            r@.members == Seq::<u32>::empty(),
            r@.cursors == Seq::<u32>::empty(),
            r@.partitions_count == partitions_count,
    {
        ConsumerGroup { group_id, name, members: Vec::new(), cursors: Vec::new(), partitions_count }
    }

    pub fn group_id(&self) -> (r: u32)
        ensures
            r == self@.group_id,
    {
        self.group_id
    }

    pub fn members_count(&self) -> (r: usize)
        ensures
            r == self@.members.len(),
    {
        self.members.len()
    }

    pub fn partitions_count(&self) -> (r: u32)
        ensures
            r == self@.partitions_count,
    {
        self.partitions_count
    }

    /// Position of `member` in join order.
    fn position(&self, member: u32) -> (r: Option<usize>)
        ensures
            r matches Some(k) ==> self@.members.index_of_first(member) == Some(k as int) && k
                < self@.members.len() && self@.members[k as int] == member,
            r is None ==> self@.members.index_of_first(member) is None,
    {
        let mut i: usize = 0;
        while i < self.members.len()
            invariant
                i <= self.members@.len(),
                forall|j: int| 0 <= j < i ==> self.members@[j] != member,
            decreases self.members@.len() - i,
        {
            if self.members[i] == member {
                proof {
                    self.members@.index_of_first_ensures(member);
                }
                return Some(i);
            }
            i += 1;
        }
        proof {
            self.members@.index_of_first_ensures(member);
        }
        None
    }

    pub fn is_member(&self, member: u32) -> (r: bool)
        ensures
            r == self@.members.contains(member),
    {
        let r = self.position(member);
        proof {
            self@.members.index_of_first_ensures(member);
        }
        r.is_some()
    }

    /// Adds `member` at the end of the join order; joining twice changes nothing.
    pub fn join(&mut self, member: u32)
        requires
            old(self).wf(),
        ensures
            final(self).wf(),
            final(self)@ == joined(old(self)@, member),
    {
        if !self.is_member(member) {
            self.members.push(member);
            self.cursors.push(0);
            proof {
                let s = self.members@;
                assert forall|i: int, j: int| 0 <= i < j < s.len() implies s[i] != s[j] by {
                    if j == s.len() - 1 {
                        assert(old(self)@.members.contains(s[i]));
                    }
                }
            }
        }
    }

    /// Removes `member`; leaving when not a member changes nothing.
    pub fn leave(&mut self, member: u32)
        requires
            old(self).wf(),
        ensures
            final(self).wf(),
            final(self)@ == left(old(self)@, member),
    {
        match self.position(member) {
            Some(k) => {
                let ghost before = self.members@;
                self.members.remove(k);
                self.cursors.remove(k);
                proof {
                    let s = self.members@;
                    assert(s == before.remove(k as int));
                    assert forall|i: int, j: int| 0 <= i < j < s.len() implies s[i] != s[j] by {
                        let bi = if i < k { i } else { i + 1 };
                        let bj = if j < k { j } else { j + 1 };
                        assert(s[i] == before[bi]);
                        assert(s[j] == before[bj]);
                    }
                }
            },
            None => {},
        }
    }

    /// The topic's partitions changed in number; shares follow.
    pub fn set_partitions_count(&mut self, partitions_count: u32)
        requires
            old(self).wf(),
        ensures
            final(self).wf(),
            final(self)@ == (ConsumerGroupView { partitions_count, ..old(self)@ }),
    {
        self.partitions_count = partitions_count;
    }

    /// The partition index that `member` polls next, if it has a share.
    pub fn current_partition(&self, member: u32) -> (r: Option<u32>)
        requires
            self.wf(),
        ensures
            r == current_partition(self@, member),
    {
        match self.position(member) {
            None => None,
            Some(k) => {
                let share = self.member_partitions(member);
                if share.len() == 0 {
                    None
                } else {
                    assert(self@.cursors[k as int] == self.cursors@[k as int]);
                    let i = self.cursors[k] as usize % share.len();
                    Some(share[i])
                }
            },
        }
    }

    /// Moves the cursor of `member` to the next partition of its share.
    pub fn advance(&mut self, member: u32)
        requires
            old(self).wf(),
        ensures
            final(self).wf(),
            final(self)@ == advanced(old(self)@, member),
    {
        match self.position(member) {
            None => {},
            Some(k) => {
                let share = self.member_partitions(member);
                let len = share.len();
                if len > 0 {
                    let c = self.cursors[k] as usize % len;
                    let next = if c + 1 >= len {
                        0
                    } else {
                        c + 1
                    };
                    proof {
                        if c + 1 < len {
                            lemma_small_mod((c + 1) as nat, len as nat);
                        } else {
                            lemma_mod_multiples_vanish(1, 0, len as int);
                            lemma_small_mod(0, len as nat);
                        }
                    }
                    assert(next as int == (c as int + 1) % len as int);
                    proof {
                        let p = self.partitions_count as int;
                        let m = self.members@.len() as int;
                        lemma_share_bounds(k as int, p, m);
                        lemma_share_bounds(k + 1, p, m);
                        lemma_share_monotone(k as int, k + 1, p, m);
                        assert(len <= u32::MAX);
                    }
                    self.cursors.set(k, next as u32);
                }
            },
        }
    }

    /// The partition indexes that `member` owns, in ascending order.
    pub fn member_partitions(&self, member: u32) -> (r: Vec<u32>)
        ensures
            r@ == assigned_partitions(self@, member),
    {
        match self.position(member) {
            None => {
                let r: Vec<u32> = Vec::new();
                assert(r@ =~= assigned_partitions(self@, member));
                r
            },
            Some(k) => {
                let m = self.members.len() as u64;
                let p = self.partitions_count as u64;
                proof {
                    lemma_share_bounds(k as int, p as int, m as int);
                    lemma_share_bounds(k + 1, p as int, m as int);
                    lemma_share_monotone(k as int, k + 1, p as int, m as int);
                }
                let start = self.share_start(k as u64, p, m);
                let end = self.share_start(k as u64 + 1, p, m);
                let mut r: Vec<u32> = Vec::new();
                let mut i: u64 = start;
                while i < end
                    invariant
                        start <= i <= end <= p,
                        p <= u32::MAX,
                        r@ == Seq::new((i - start) as nat, |j: int| (start + j) as u32),
                    decreases end - i,
                {
                    r.push(i as u32);
                    i += 1;
                    assert(r@ =~= Seq::new((i - start) as nat, |j: int| (start + j) as u32));
                }
                assert(r@ =~= assigned_partitions(self@, member));
                r
            },
        }
    }

    /// The member that owns partition index `partition`, if any.
    pub fn partition_owner(&self, partition: u32) -> (r: Option<u32>)
        requires
            self.wf(),
        ensures
            r matches Some(x) ==> exists|k: int| {
                &&& owns(k, partition as int, self@.partitions_count as int, self@.members.len() as int)
                &&& #[trigger] self@.members[k] == x
            },
            r is None ==> self@.members.len() == 0 || partition >= self@.partitions_count,
    {
        let m = self.members.len();
        let p = self.partitions_count as u64;
        if m == 0 || partition >= self.partitions_count {
            return None;
        }
        let mut k: usize = 0;
        proof {
            lemma_share_bounds(0, p as int, m as int);
        }
        while k < m
            invariant
                0 < m,
                m == self.members@.len(),
                p == self@.partitions_count,
                partition < p,
                k <= m,
                share_start(k as int, p as int, m as int) <= partition,
            decreases m - k,
        {
            proof {
                lemma_share_bounds(k + 1, p as int, m as int);
            }
            let end = self.share_start(k as u64 + 1, p, m as u64);
            if (partition as u64) < end {
                let x = self.members[k];
                assert(owns(k as int, partition as int, p as int, m as int));
                assert(self@.members[k as int] == x);
                return Some(x);
            }
            k += 1;
        }
        proof {
            lemma_share_bounds(m as int, p as int, m as int);
        }
        None
    }

    fn share_start(&self, k: u64, p: u64, m: u64) -> (r: u64)
        requires
            0 < m,
            k <= m,
            p <= u32::MAX,
        ensures
            r == share_start(k as int, p as int, m as int),
    {
        proof {
            lemma_share_bounds(k as int, p as int, m as int);
            assert(k * (p / m) <= share_start(k as int, p as int, m as int));
        }
        let q = p / m;
        let rem = p % m;
        let extra = if k < rem { k } else { rem };
        k * q + extra
    }
}

} // verus!
