//! A multi-level feedback queue (MLFQ) preemptive scheduler.
//!
//! The scheduler follows five rules:
//! - Rule 1: if Priority(A) > Priority(B), A runs (B doesn't);
//! - Rule 2: if Priority(A) = Priority(B), A and B run in round-robin
//!   fashion using the time slice of the given queue;
//! - Rule 3: when a task enters the system, it is placed at the highest
//!   priority (the topmost queue);
//! - Rule 4: once a task uses up its time allotment at a given level, its
//!   priority is reduced (it moves down one queue);
//! - Rule 5: after some time period, all the tasks in the system move to the
//!   topmost queue.
//!
//! Level `0` is the highest priority.  A task at level `p` gets a time
//! slice of `BASE_TIME << p` ticks, so higher-priority levels get shorter
//! slices.
use std::collections::VecDeque;
use vstd::arithmetic::power2::pow2;
use vstd::multiset::Multiset;
use vstd::prelude::*;

verus! {

/// What the scheduler knows of a task: the task itself, the identifier that
/// tells it apart from other tasks, its priority level and the number of
/// ticks left in its time slice.
pub struct MLFQTaskView<T> {
    pub inner: T,
    pub id: usize,
    pub priority: isize,
    pub remain_time: isize,
}

/// Time slice, in ticks, of a task at priority level `prio`.
pub open spec fn time_slice(base_time: usize, prio: isize) -> isize {
    (base_time as isize) << (prio as u32)
}

/// Level that a task at level `prio` is demoted to: one level down, but
/// never below the last of `level_num` levels.
pub open spec fn demoted_prio(level_num: usize, prio: isize) -> int {
    if prio + 1 == level_num as isize {
        prio as int
    } else {
        prio + 1
    }
}

proof fn lemma_usize_as_isize_round_trip(x: usize)
    by (bit_vector)
    ensures
        (x as isize) as usize == x,
{
}

/// A task demoted from a level among `level_num` levels stays among them,
/// one level down or, from the last level, at the same level.
pub proof fn lemma_demoted_prio_in_levels(level_num: usize, prio: isize)
    requires
        0 <= prio < level_num,
        demoted_prio(level_num, prio) < usize::BITS,
    ensures
        0 <= demoted_prio(level_num, prio) < level_num,
        demoted_prio(level_num, prio) == prio + 1 || (demoted_prio(level_num, prio) == prio
            && prio == level_num - 1),
{
    lemma_usize_as_isize_round_trip(level_num);
    if level_num <= isize::MAX {
        assert(level_num as isize == level_num);
    }
}

/// A level's time slice is twice the slice of the level above it, as long as
/// the doubled slice fits in an `isize`: higher-priority levels get shorter
/// time slices.
pub proof fn lemma_time_slice_doubles(base_time: usize, prio: isize)
    requires
        0 <= prio,
        prio + 1 < usize::BITS,
        (time_slice(base_time, prio) << 1u32) >> 1u32 == time_slice(base_time, prio),
    ensures
        time_slice(base_time, (prio + 1) as isize) == 2 * time_slice(base_time, prio),
{
    let b = base_time as isize;
    let p = prio as u32;
    assert(p + 1 < usize::BITS ==> b << (p + 1) == (b << p) << 1u32) by (bit_vector);
    assert(((b << p) << 1u32) >> 1u32 == b << p ==> (b << p) << 1u32 == 2 * (b << p)) by (bit_vector);
    assert((prio + 1) as u32 == p + 1);
}

proof fn lemma_isize_double(x: isize)
    by (bit_vector)
    requires
        0 <= x,
        ((x + x) as isize) == x + x,
    ensures
        x << 1u32 == x + x,
{
}

proof fn lemma_isize_shift_step(b: isize, p: u32)
    by (bit_vector)
    requires
        p + 1 < usize::BITS,
    ensures
        b << (p + 1) == (b << p) << 1u32,
        b << 0u32 == b,
{
}

/// The time slice of level `prio` is `base_time` doubled `prio` times, that
/// is `base_time * 2^prio`, whenever that product fits in an `isize`.
pub proof fn lemma_time_slice_is_power_of_two(base_time: usize, prio: isize)
    requires
        0 <= prio < usize::BITS,
        base_time * pow2(prio as nat) <= isize::MAX,
    ensures
        time_slice(base_time, prio) == base_time * pow2(prio as nat),
    decreases prio,
{
    broadcast use vstd::arithmetic::power2::lemma_pow2_pos;

    reveal(pow2);
    let b = base_time as isize;
    assert(pow2(prio as nat) >= 1);
    assert(base_time <= base_time * pow2(prio as nat)) by (nonlinear_arith)
        requires
            pow2(prio as nat) >= 1,
    ;
    assert(b == base_time);
    if prio == 0 {
        lemma_isize_shift_step(b, 0);
        assert(pow2(0) == 1) by {
            vstd::arithmetic::power2::lemma_pow2(0);
            reveal(vstd::arithmetic::power::pow);
        }
    } else {
        let q = (prio - 1) as isize;
        vstd::arithmetic::power2::lemma_pow2_unfold(prio as nat);
        assert(base_time * pow2(prio as nat) == 2 * (base_time * pow2(q as nat))) by (nonlinear_arith)
            requires
                pow2(prio as nat) == 2 * pow2(q as nat),
        ;
        lemma_time_slice_is_power_of_two(base_time, q);
        let x = time_slice(base_time, q);
        lemma_isize_shift_step(b, q as u32);
        assert((q as u32) + 1 == prio as u32);
        lemma_isize_double(x);
    }
}

/// Lower levels get longer time slices: for levels `p <= q` whose slices
/// fit in an `isize` (shifting the slice of `q` back gives the base time),
/// the slice of `p` is at most that of `q`, and shorter when `p < q` and
/// the base time is positive.
pub proof fn lemma_time_slice_monotonic(base_time: usize, p: isize, q: isize)
    requires
        0 <= p <= q < usize::BITS,
        0 <= base_time as isize,
        time_slice(base_time, q) >> (q as u32) == base_time as isize,
    ensures
        time_slice(base_time, p) <= time_slice(base_time, q),
        p < q && base_time as isize > 0 ==> time_slice(base_time, p) < time_slice(base_time, q),
{
    let b = base_time as isize;
    let pp = p as u32;
    let qq = q as u32;
    assert(pp <= qq && qq < usize::BITS && 0 <= b && (b << qq) >> qq == b ==> b << pp <= b << qq
        && (pp < qq && b > 0 ==> b << pp < b << qq)) by (bit_vector);
}

/// Every task queued at level `l` has priority `l`.
pub open spec fn levels_consistent<T>(qs: Seq<Seq<MLFQTaskView<T>>>) -> bool {
    forall|l: int, i: int|
        0 <= l < qs.len() && 0 <= i < qs[l].len() ==> #[trigger] qs[l][i].priority == l
}

/// No level holds a task.
pub open spec fn all_empty<A>(qs: Seq<Seq<A>>) -> bool {
    forall|l: int| 0 <= l < qs.len() ==> #[trigger] qs[l].len() == 0
}

/// `l` is the highest-priority level that holds a task.
pub open spec fn is_first_nonempty<A>(qs: Seq<Seq<A>>, l: int) -> bool {
    &&& 0 <= l < qs.len()
    &&& qs[l].len() > 0
    &&& forall|k: int| 0 <= k < l ==> #[trigger] qs[k].len() == 0
}

/// The queues after `t` joins the back of level `l`.
pub open spec fn enqueued_back<A>(qs: Seq<Seq<A>>, l: int, t: A) -> Seq<Seq<A>> {
    qs.update(l, qs[l].push(t))
}

/// The queues after `t` joins the front of level `l`.
pub open spec fn enqueued_front<A>(qs: Seq<Seq<A>>, l: int, t: A) -> Seq<Seq<A>> {
    qs.update(l, seq![t] + qs[l])
}

/// Picking from `before` returns `r` and leaves `after`: the task at the
/// front of the highest-priority non-empty level, or nothing when every
/// level is empty.
pub open spec fn picked<A>(before: Seq<Seq<A>>, r: Option<A>, after: Seq<Seq<A>>) -> bool {
    match r {
        None => all_empty(before) && after == before,
        Some(t) => exists|l: int|
            #![trigger before[l]]
            {
                &&& is_first_nonempty(before, l)
                &&& t == before[l][0]
                &&& after == before.update(l, before[l].drop_first())
            },
    }
}

/// The task at position `i` of `q` is the first one with identifier `id`.
pub open spec fn is_first_match<T>(q: Seq<MLFQTaskView<T>>, id: usize, i: int) -> bool {
    &&& 0 <= i < q.len()
    &&& q[i].id == id
    &&& forall|j: int| 0 <= j < i ==> (#[trigger] q[j]).id != id
}

/// Removing the task with identifier `id` from level `l` of `before`
/// returns `r` and leaves `after`: the first task at that level with that
/// identifier, or nothing when there is none.
pub open spec fn removed<T>(
    before: Seq<Seq<MLFQTaskView<T>>>,
    l: int,
    id: usize,
    r: Option<MLFQTaskView<T>>,
    after: Seq<Seq<MLFQTaskView<T>>>,
) -> bool {
    match r {
        None => {
            &&& after == before
            &&& forall|i: int| 0 <= i < before[l].len() ==> (#[trigger] before[l][i]).id != id
        },
        Some(t) => exists|i: int|
            #![trigger before[l][i]]
            {
                &&& is_first_match(before[l], id, i)
                &&& t == before[l][i]
                &&& after == before.update(l, before[l].remove(i))
            },
    }
}

/// A task added to an idle scheduler is the next task picked, and picking it
/// leaves the scheduler idle again.
pub proof fn lemma_pick_after_add_to_idle<A>(
    qs: Seq<Seq<A>>,
    l: int,
    t: A,
    r: Option<A>,
    after: Seq<Seq<A>>,
)
    requires
        all_empty(qs),
        0 <= l < qs.len(),
        picked(enqueued_back(qs, l, t), r, after),
    ensures
        r == Some(t),
        after == qs,
{
    let added = enqueued_back(qs, l, t);
    assert(added[l].len() == 1);
    assert(!all_empty(added));
    let m = choose|m: int|
        #![trigger added[m]]
        {
            &&& is_first_nonempty(added, m)
            &&& r->0 == added[m][0]
            &&& after == added.update(m, added[m].drop_first())
        };
    if m != l {
        assert(added[m] == qs[m]);
    }
    assert(m == l);
    assert(after =~= qs) by {
        assert(added[l].drop_first() =~= qs[l]);
    }
}

/// Rule 1: the task picked has the highest priority of all queued tasks,
/// that is the smallest level.
pub proof fn lemma_pick_highest_priority<T>(
    before: Seq<Seq<MLFQTaskView<T>>>,
    t: MLFQTaskView<T>,
    after: Seq<Seq<MLFQTaskView<T>>>,
)
    requires
        levels_consistent(before),
        picked(before, Some(t), after),
    ensures
        0 <= t.priority < before.len(),
        t == before[t.priority as int][0],
        forall|l: int, i: int|
            0 <= l < before.len() && 0 <= i < before[l].len() ==> t.priority <= #[trigger] before[l][i].priority,
{
    let m = choose|m: int|
        #![trigger before[m]]
        {
            &&& is_first_nonempty(before, m)
            &&& t == before[m][0]
            &&& after == before.update(m, before[m].drop_first())
        };
    assert(before[m][0].priority == m);
    assert forall|l: int, i: int|
        0 <= l < before.len() && 0 <= i < before[l].len() implies t.priority <= #[trigger] before[l][i].priority by {
        if l < m {
            assert(before[l].len() == 0);
        }
    }
}

/// Rule 2: a task that is picked and then put back at the back of its
/// level runs again only after every other task of that level.
pub proof fn lemma_round_robin<T>(
    before: Seq<Seq<MLFQTaskView<T>>>,
    t: MLFQTaskView<T>,
    mid: Seq<Seq<MLFQTaskView<T>>>,
    u: MLFQTaskView<T>,
)
    requires
        levels_consistent(before),
        picked(before, Some(t), mid),
    ensures
        enqueued_back(mid, t.priority as int, u)[t.priority as int] == before[t.priority as int].drop_first().push(u),
{
    lemma_pick_highest_priority(before, t, mid);
    let m = choose|m: int|
        #![trigger before[m]]
        {
            &&& is_first_nonempty(before, m)
            &&& t == before[m][0]
            &&& mid == before.update(m, before[m].drop_first())
        };
    assert(before[m][0].priority == m);
}

/// A task added to a level where no other task has its identifier is the
/// task that removing it returns, and removing it undoes the addition.
pub proof fn lemma_remove_after_add<T>(
    qs: Seq<Seq<MLFQTaskView<T>>>,
    l: int,
    t: MLFQTaskView<T>,
    r: Option<MLFQTaskView<T>>,
    after: Seq<Seq<MLFQTaskView<T>>>,
)
    requires
        0 <= l < qs.len(),
        forall|i: int| 0 <= i < qs[l].len() ==> (#[trigger] qs[l][i]).id != t.id,
        removed(enqueued_back(qs, l, t), l, t.id, r, after),
    ensures
        r == Some(t),
        after == qs,
{
    let added = enqueued_back(qs, l, t);
    let n = qs[l].len() as int;
    assert(added[l][n] == t);
    if r is None {
        assert(added[l][n].id != t.id);
    }
    let i = choose|i: int|
        #![trigger added[l][i]]
        {
            &&& is_first_match(added[l], t.id, i)
            &&& r->0 == added[l][i]
            &&& after == added.update(l, added[l].remove(i))
        };
    if i < n {
        assert(added[l][i] == qs[l][i]);
    }
    assert(i == n);
    assert(after =~= qs) by {
        assert(added[l].remove(n) =~= qs[l]);
    }
}

/// `n` consecutive ticks of a scheduler whose countdown to the next boost
/// is `countdown` include a boost: a tick boosts when the countdown is at
/// most `1`, and otherwise counts it down by one.
pub open spec fn boosts_within(countdown: isize, n: nat) -> bool
    decreases n,
{
    n >= 1 && (countdown <= 1 || boosts_within((countdown - 1) as isize, (n - 1) as nat))
}

proof fn lemma_boosts_within_countdown(countdown: isize, n: nat)
    requires
        countdown <= n,
        n >= 1,
    ensures
        boosts_within(countdown, n),
    decreases n,
{
    if countdown > 1 {
        lemma_boosts_within_countdown((countdown - 1) as isize, (n - 1) as nat);
    }
}

/// The tasks queued at all levels, counted with multiplicity.
pub open spec fn queued<A>(qs: Seq<Seq<A>>) -> Multiset<A>
    decreases qs.len(),
{
    if qs.len() == 0 {
        Multiset::empty()
    } else {
        queued(qs.drop_last()).add(qs.last().to_multiset())
    }
}

proof fn lemma_queued_update<A>(qs: Seq<Seq<A>>, l: int, s: Seq<A>)
    requires
        0 <= l < qs.len(),
    ensures
        queued(qs.update(l, s)).add(qs[l].to_multiset()) == queued(qs).add(s.to_multiset()),
    decreases qs.len(),
{
    broadcast use vstd::multiset::group_multiset_axioms;

    let u = qs.update(l, s);
    if l == qs.len() - 1 {
        assert(u.drop_last() =~= qs.drop_last());
        assert(queued(u).add(qs[l].to_multiset()) =~= queued(qs).add(s.to_multiset()));
    } else {
        let dl = qs.drop_last();
        lemma_queued_update(dl, l, s);
        assert(u.drop_last() =~= dl.update(l, s));
        assert(u.last() == qs.last());
        assert(dl[l] == qs[l]);
        assert(queued(u) == queued(dl.update(l, s)).add(qs.last().to_multiset()));
        assert(queued(qs) == queued(dl).add(qs.last().to_multiset()));
        let lhs = queued(u).add(qs[l].to_multiset());
        let rhs = queued(qs).add(s.to_multiset());
        assert forall|v: A| #[trigger] lhs.count(v) == rhs.count(v) by {
            assert(queued(dl.update(l, s)).add(qs[l].to_multiset()).count(v) == queued(dl).add(
                s.to_multiset(),
            ).count(v));
        }
        assert(lhs =~= rhs);
    }
}

proof fn lemma_queued_replace<A>(qs: Seq<Seq<A>>, l: int, s: Seq<A>, t: A)
    requires
        0 <= l < qs.len(),
        s.to_multiset() == qs[l].to_multiset().insert(t),
    ensures
        queued(qs.update(l, s)) == queued(qs).insert(t),
{
    broadcast use vstd::multiset::group_multiset_axioms;

    lemma_queued_update(qs, l, s);
    let a = queued(qs.update(l, s));
    let b = queued(qs).insert(t);
    assert forall|v: A| #[trigger] a.count(v) == b.count(v) by {
        assert(a.add(qs[l].to_multiset()).count(v) == queued(qs).add(s.to_multiset()).count(v));
    }
    assert(a =~= b);
}

proof fn lemma_taken_back<A>(s: Seq<A>, i: int)
    requires
        0 <= i < s.len(),
    ensures
        s.to_multiset() == s.remove(i).to_multiset().insert(s[i]),
{
    broadcast use vstd::seq_lib::group_to_multiset_ensures;
    broadcast use vstd::multiset::group_multiset_axioms;

    let ms = s.to_multiset();
    assert(s.contains(s[i]));
    assert(ms.count(s[i]) > 0);
    assert(ms.remove(s[i]).insert(s[i]) =~= ms);
}

/// Adding a task to the back or the front of a level adds exactly that task
/// to the queued tasks.
pub proof fn lemma_enqueue_adds_task<A>(qs: Seq<Seq<A>>, l: int, t: A)
    requires
        0 <= l < qs.len(),
    ensures
        queued(enqueued_back(qs, l, t)) == queued(qs).insert(t),
        queued(enqueued_front(qs, l, t)) == queued(qs).insert(t),
{
    broadcast use vstd::seq_lib::group_to_multiset_ensures;

    lemma_queued_replace(qs, l, qs[l].push(t), t);
    assert(seq![t] + qs[l] =~= qs[l].insert(0, t));
    lemma_queued_replace(qs, l, seq![t] + qs[l], t);
}

/// Picking a task takes exactly that task out of the queued tasks.
pub proof fn lemma_pick_takes_task<A>(before: Seq<Seq<A>>, t: A, after: Seq<Seq<A>>)
    requires
        picked(before, Some(t), after),
    ensures
        queued(after).insert(t) == queued(before),
{
    broadcast use vstd::seq_lib::group_to_multiset_ensures;

    let m = choose|m: int|
        #![trigger before[m]]
        {
            &&& is_first_nonempty(before, m)
            &&& t == before[m][0]
            &&& after == before.update(m, before[m].drop_first())
        };
    broadcast use vstd::multiset::group_multiset_axioms;

    let rest = before[m].drop_first();
    assert(rest =~= before[m].remove(0));
    assert(after[m] == rest);
    assert(after.update(m, before[m]) =~= before);
    lemma_taken_back(before[m], 0);
    lemma_queued_replace(after, m, before[m], t);
}

/// Removing a task takes exactly that task out of the queued tasks.
pub proof fn lemma_remove_takes_task<T>(
    before: Seq<Seq<MLFQTaskView<T>>>,
    l: int,
    id: usize,
    t: MLFQTaskView<T>,
    after: Seq<Seq<MLFQTaskView<T>>>,
)
    requires
        0 <= l < before.len(),
        removed(before, l, id, Some(t), after),
    ensures
        queued(after).insert(t) == queued(before),
{
    broadcast use vstd::seq_lib::group_to_multiset_ensures;

    let i = choose|i: int|
        #![trigger before[l][i]]
        {
            &&& is_first_match(before[l], id, i)
            &&& t == before[l][i]
            &&& after == before.update(l, before[l].remove(i))
        };
    assert(after[l] == before[l].remove(i));
    assert(after.update(l, before[l]) =~= before);
    lemma_taken_back(before[l], i);
    lemma_queued_replace(after, l, before[l], t);
}

/// A task wrapper for the [`MLFQScheduler`].
///
/// It adds a priority level for scheduling between levels, and a time slice
/// counter for round-robin scheduling within a level.  Tasks are held by
/// value, so a task carries an identifier by which the scheduler finds it
/// again; the caller keeps identifiers unique.
pub struct MLFQTask<T, const LEVEL_NUM: usize, const BASE_TIME: usize, const RESET_TIME: usize> {
    inner: T,
    id: usize,
    priority: isize,
    remain_time: isize,
}

impl<T, const LEVEL_NUM: usize, const BASE_TIME: usize, const RESET_TIME: usize> View for MLFQTask<
    T,
    LEVEL_NUM,
    BASE_TIME,
    RESET_TIME,
> {
    type V = MLFQTaskView<T>;

    closed spec fn view(&self) -> MLFQTaskView<T> {
        MLFQTaskView {
            inner: self.inner,
            id: self.id,
            priority: self.priority,
            remain_time: self.remain_time,
        }
    }
}

impl<T, const LEVEL_NUM: usize, const BASE_TIME: usize, const RESET_TIME: usize> MLFQTask<
    T,
    LEVEL_NUM,
    BASE_TIME,
    RESET_TIME,
> {
    /// The task moved back to the topmost level with a fresh time slice.
    pub open spec fn reset_view(t: MLFQTaskView<T>) -> MLFQTaskView<T> {
        MLFQTaskView { inner: t.inner, id: t.id, priority: 0, remain_time: BASE_TIME as isize }
    }

    /// The task with a fresh time slice for its level.
    pub open spec fn time_reset_view(t: MLFQTaskView<T>) -> MLFQTaskView<T> {
        MLFQTaskView {
            inner: t.inner,
            id: t.id,
            priority: t.priority,
            remain_time: time_slice(BASE_TIME, t.priority),
        }
    }

    /// The task demoted one level, with a fresh time slice for that level.
    pub open spec fn demoted_view(t: MLFQTaskView<T>) -> MLFQTaskView<T> {
        let p = demoted_prio(LEVEL_NUM, t.priority) as isize;
        MLFQTaskView { inner: t.inner, id: t.id, priority: p, remain_time: time_slice(BASE_TIME, p) }
    }

    /// The task after one timer tick.
    pub open spec fn ticked_view(t: MLFQTaskView<T>) -> MLFQTaskView<T> {
        MLFQTaskView {
            inner: t.inner,
            id: t.id,
            priority: t.priority,
            remain_time: t.remain_time.wrapping_sub(1),
        }
    }

    /// The time slice of the task's level can be computed: the shift that
    /// computes it stays below the width of an `isize`.
    pub open spec fn can_reset_time(t: MLFQTaskView<T>) -> bool {
        t.priority < usize::BITS
    }

    /// The task can be demoted: the time slice of the level below can be
    /// computed.
    pub open spec fn can_demote(t: MLFQTaskView<T>) -> bool {
        demoted_prio(LEVEL_NUM, t.priority) < usize::BITS
    }

    /// A task's priority is a level: never negative and, when there are
    /// levels, below their number.
    #[verifier::type_invariant]
    spec fn inv(self) -> bool {
        &&& 0 <= self.priority
        &&& LEVEL_NUM > 0 ==> self.priority < LEVEL_NUM
    }


    /// Rules 2 and 4: every fresh time slice is the slice of the task's
    /// level.  A task given a fresh slice keeps its level; a demoted task
    /// gets the fresh slice of its new level; a task moved back to the top
    /// gets the slice of level `0`.  The slice of level `p` is
    /// `BASE_TIME * 2^p` whenever that fits in an `isize`, so each level's
    /// slice is twice the one above it.
    pub proof fn lemma_fresh_slices(t: MLFQTaskView<T>)
        requires
            0 <= t.priority < usize::BITS,
        ensures
            Self::time_reset_view(t).priority == t.priority,
            Self::demoted_view(t).remain_time == Self::time_reset_view(
                Self::demoted_view(t),
            ).remain_time,
            Self::reset_view(t).remain_time == Self::time_reset_view(
                Self::reset_view(t),
            ).remain_time,
            BASE_TIME * pow2(t.priority as nat) <= isize::MAX ==> Self::time_reset_view(
                t,
            ).remain_time == BASE_TIME * pow2(t.priority as nat),
    {
        lemma_isize_shift_step(BASE_TIME as isize, 0);
        if BASE_TIME * pow2(t.priority as nat) <= isize::MAX {
            lemma_time_slice_is_power_of_two(BASE_TIME, t.priority);
        }
    }

    /// Scheduling never changes which task a task is: every update keeps its
    /// inner task and its identifier.
    pub proof fn lemma_updates_keep_task(t: MLFQTaskView<T>)
        ensures
            Self::reset_view(t).inner == t.inner && Self::reset_view(t).id == t.id,
            Self::time_reset_view(t).inner == t.inner && Self::time_reset_view(t).id == t.id,
            Self::demoted_view(t).inner == t.inner && Self::demoted_view(t).id == t.id,
            Self::ticked_view(t).inner == t.inner && Self::ticked_view(t).id == t.id,
    {
    }

    /// Creates a new [`MLFQTask`] from the inner task struct and its
    /// identifier, at the highest priority with a full time slice (Rule 3).
    pub fn new(inner: T, id: usize) -> (r: Self)
        ensures
            r@ == (MLFQTaskView { inner, id, priority: 0, remain_time: BASE_TIME as isize }),
    {
        MLFQTask { inner, id, priority: 0, remain_time: BASE_TIME as isize }
    }

    /// The task's identifier.
    pub fn id(&self) -> (r: usize)
        ensures
            r == self@.id,
    {
        self.id
    }

    /// The task's priority level: never negative and, when there are levels,
    /// below their number.
    pub fn get_prio(&self) -> (r: isize)
        ensures
            r == self@.priority,
            0 <= r,
            LEVEL_NUM > 0 ==> r < LEVEL_NUM,
    {
        proof {
            use_type_invariant(self);
        }
        self.priority
    }

    /// Counts one timer tick off the time slice, and returns the ticks that
    /// were left before it.
    pub fn tick(&mut self) -> (r: isize)
        ensures
            r == old(self)@.remain_time,
            final(self)@ == Self::ticked_view(old(self)@),
    {
        proof {
            use_type_invariant(&*self);
        }
        let r = self.remain_time;
        self.remain_time = self.remain_time.wrapping_sub(1);
        r
    }

    /// The ticks left in the time slice.
    pub fn get_remain(&self) -> (r: isize)
        ensures
            r == self@.remain_time,
    {
        self.remain_time
    }

    /// Gives the task a fresh time slice for its level.
    pub fn reset_time(&mut self)
        requires
            Self::can_reset_time(old(self)@),
        ensures
            final(self)@ == Self::time_reset_view(old(self)@),
    {
        proof {
            use_type_invariant(&*self);
        }
        self.remain_time = (BASE_TIME as isize) << (self.priority as u32);
    }

    /// Moves the task back to the highest priority with a fresh time slice
    /// (Rule 5).
    pub fn reset_prio(&mut self)
        ensures
            final(self)@ == Self::reset_view(old(self)@),
    {
        self.priority = 0;
        self.remain_time = BASE_TIME as isize;
    }

    /// Demotes the task by one level, never below the last level, gives it
    /// a fresh time slice for that level, and returns the new level
    /// (Rule 4).
    pub fn prio_demote(&mut self) -> (r: isize)
        requires
            Self::can_demote(old(self)@),
        ensures
            final(self)@ == Self::demoted_view(old(self)@),
            r == final(self)@.priority,
    {
        proof {
            use_type_invariant(&*self);
            if LEVEL_NUM > 0 {
                lemma_demoted_prio_in_levels(LEVEL_NUM, self.priority);
            }
        }
        let next_prio = self.priority + 1;
        let current_prio = if next_prio == LEVEL_NUM as isize {
            LEVEL_NUM as isize - 1
        } else {
            next_prio
        };
        self.priority = current_prio;
        self.remain_time = (BASE_TIME as isize) << (current_prio as u32);
        current_prio
    }

    /// The inner task struct.
    pub fn inner(&self) -> (r: &T)
        ensures
            *r == self@.inner,
    {
        &self.inner
    }
}

impl<T, const LEVEL_NUM: usize, const BASE_TIME: usize, const RESET_TIME: usize> core::ops::Deref for MLFQTask<
    T,
    LEVEL_NUM,
    BASE_TIME,
    RESET_TIME,
> {
    type Target = T;

    /// The inner task struct.
    fn deref(&self) -> (r: &T)
        ensures
            *r == self@.inner,
    {
        &self.inner
    }
}

/// A simple Multi-Level Feedback Queue (MLFQ) preemptive scheduler.
///
/// It keeps one ready queue per priority level, `LEVEL_NUM` levels in all;
/// removing a task from a ready queue may take time linear in the queue's
/// length.  Every `RESET_TIME` ticks all tasks move back to the topmost
/// level.
pub struct MLFQScheduler<T, const LEVEL_NUM: usize, const BASE_TIME: usize, const RESET_TIME: usize> {
    ready_queue: Vec<VecDeque<MLFQTask<T, LEVEL_NUM, BASE_TIME, RESET_TIME>>>,
    reset_remain_ticks: isize,
}

impl<T, const LEVEL_NUM: usize, const BASE_TIME: usize, const RESET_TIME: usize> MLFQScheduler<
    T,
    LEVEL_NUM,
    BASE_TIME,
    RESET_TIME,
> {
    /// The tasks of one ready queue, front first.
    pub closed spec fn queue_view(q: VecDeque<MLFQTask<T, LEVEL_NUM, BASE_TIME, RESET_TIME>>) -> Seq<
        MLFQTaskView<T>,
    > {
        q@.map_values(|t: MLFQTask<T, LEVEL_NUM, BASE_TIME, RESET_TIME>| t@)
    }

    /// The ready queues, highest priority level first.
    pub closed spec fn queues(&self) -> Seq<Seq<MLFQTaskView<T>>> {
        self.ready_queue@.map_values(
            |q: VecDeque<MLFQTask<T, LEVEL_NUM, BASE_TIME, RESET_TIME>>| Self::queue_view(q),
        )
    }

    /// Ticks left until all tasks move back to the topmost level.
    pub closed spec fn reset_remain_ticks(&self) -> isize {
        self.reset_remain_ticks
    }

    /// The countdown to the next boost: `RESET_TIME` right after a boost,
    /// then one less per tick down to `1`.
    pub open spec fn countdown_ok(c: isize) -> bool {
        c == RESET_TIME as isize || 1 <= c <= RESET_TIME as isize
    }

    /// Rule 5: starting from any countdown that a well-formed scheduler can
    /// hold, every `RESET_TIME` consecutive ticks include a boost.
    /// `task_tick` boosts when the countdown is at most `1` and otherwise
    /// counts it down by one; the other operations keep it.
    pub proof fn lemma_boost_within_reset_time(countdown: isize, n: nat)
        requires
            Self::countdown_ok(countdown),
            RESET_TIME >= 1,
            n >= RESET_TIME,
        ensures
            boosts_within(countdown, n),
    {
        lemma_usize_as_isize_round_trip(RESET_TIME);
        if countdown > 1 {
            assert(countdown <= RESET_TIME);
        }
        lemma_boosts_within_countdown(countdown, n);
    }

    /// The scheduler has one ready queue per level, every task sits in the
    /// queue of its own level, and the countdown to the next boost lies
    /// between `1` and `RESET_TIME`.
    pub open spec fn wf(&self) -> bool {
        &&& LEVEL_NUM > 0
        &&& self.queues().len() == LEVEL_NUM
        &&& levels_consistent(self.queues())
        &&& Self::countdown_ok(self.reset_remain_ticks())
    }

    proof fn lemma_queues_update(
        rq: Seq<VecDeque<MLFQTask<T, LEVEL_NUM, BASE_TIME, RESET_TIME>>>,
        i: int,
        q: VecDeque<MLFQTask<T, LEVEL_NUM, BASE_TIME, RESET_TIME>>,
    )
        requires
            0 <= i < rq.len(),
        ensures
            rq.update(i, q).map_values(
                |q: VecDeque<MLFQTask<T, LEVEL_NUM, BASE_TIME, RESET_TIME>>| Self::queue_view(q),
            ) == rq.map_values(
                |q: VecDeque<MLFQTask<T, LEVEL_NUM, BASE_TIME, RESET_TIME>>| Self::queue_view(q),
            ).update(i, Self::queue_view(q)),
    {
        assert(rq.update(i, q).map_values(
            |q: VecDeque<MLFQTask<T, LEVEL_NUM, BASE_TIME, RESET_TIME>>| Self::queue_view(q),
        ) =~= rq.map_values(
            |q: VecDeque<MLFQTask<T, LEVEL_NUM, BASE_TIME, RESET_TIME>>| Self::queue_view(q),
        ).update(i, Self::queue_view(q)));
    }

    /// Creates a new empty [`MLFQScheduler`].
    pub fn new() -> (r: Self)
        requires
            LEVEL_NUM > 0,
        ensures
            r.wf(),
            r.queues() == Seq::new(LEVEL_NUM as nat, |l: int| Seq::<MLFQTaskView<T>>::empty()),
            r.reset_remain_ticks() == RESET_TIME as isize,
    {
        let mut ready_queue: Vec<VecDeque<MLFQTask<T, LEVEL_NUM, BASE_TIME, RESET_TIME>>> =
            Vec::new();
        for _i in 0..LEVEL_NUM
            invariant
                ready_queue@.len() == _i,
                forall|l: int| 0 <= l < _i ==> (#[trigger] ready_queue@[l])@.len() == 0,
        {
            ready_queue.push(VecDeque::new());
        }
        let r = MLFQScheduler { ready_queue, reset_remain_ticks: RESET_TIME as isize };
        assert(r.queues() =~= Seq::new(LEVEL_NUM as nat, |l: int| Seq::<MLFQTaskView<T>>::empty()))
            by {
            assert forall|l: int| 0 <= l < LEVEL_NUM implies #[trigger] r.queues()[l]
                =~= Seq::<MLFQTaskView<T>>::empty() by {
                assert(r.ready_queue@[l]@.len() == 0);
            }
        }
        r
    }

    /// The name of the scheduler.
    pub fn scheduler_name() -> (r: &'static str)
        ensures
            r@ == "Multi-Level Feedback Queue Scheduler"@,
    {
        "Multi-Level Feedback Queue Scheduler"
    }

    /// Initializes the scheduler; there is nothing to do.
    pub fn init(&mut self)
        ensures
            *final(self) == *old(self),
    {
    }

    /// Adds `task` to the back of the queue of its priority level.
    pub fn add_task(&mut self, task: MLFQTask<T, LEVEL_NUM, BASE_TIME, RESET_TIME>)
        requires
            old(self).wf(),
        ensures
            final(self).wf(),
            final(self).queues() == enqueued_back(
                old(self).queues(),
                task@.priority as int,
                task@,
            ),
            final(self).reset_remain_ticks() == old(self).reset_remain_ticks(),
    {
        proof {
            use_type_invariant(&task);
        }
        let p = task.get_prio() as usize;
        let ghost t = task@;
        self.ready_queue[p].push_back(task);
        proof {
            Self::lemma_queues_update(old(self).ready_queue@, p as int, self.ready_queue@[p as int]);
            assert(Self::queue_view(self.ready_queue@[p as int]) =~= old(self).queues()[p as int].push(t));
        }
    }

    /// Removes and returns the task at the front of the highest-priority
    /// non-empty queue (Rules 1 and 2).
    pub fn pick_next_task(&mut self) -> (r: Option<MLFQTask<T, LEVEL_NUM, BASE_TIME, RESET_TIME>>)
        requires
            old(self).wf(),
        ensures
            final(self).wf(),
            picked(
                old(self).queues(),
                match r {
                    Some(t) => Some(t@),
                    None => None,
                },
                final(self).queues(),
            ),
            final(self).reset_remain_ticks() == old(self).reset_remain_ticks(),
    {
        let n = self.ready_queue.len();
        let mut i: usize = 0;
        while i < n
            invariant
                *self == *old(self),
                self.wf(),
                n == self.ready_queue@.len(),
                i <= n,
                forall|k: int| 0 <= k < i ==> #[trigger] self.queues()[k].len() == 0,
            decreases n - i,
        {
            if self.ready_queue[i].len() > 0 {
                let r = self.ready_queue[i].pop_front();
                proof {
                    let l = i as int;
                    Self::lemma_queues_update(old(self).ready_queue@, l, self.ready_queue@[l]);
                    assert(Self::queue_view(self.ready_queue@[l]) =~= old(self).queues()[l].drop_first());
                    assert(is_first_nonempty(old(self).queues(), l));
                    let after = self.queues();
                    assert forall|k: int, j: int|
                        0 <= k < after.len() && 0 <= j < after[k].len() implies #[trigger] after[k][j].priority == k by {
                        if k == l {
                            assert(after[k][j] == old(self).queues()[k][j + 1]);
                        }
                    }
                }
                return r;
            }
            i += 1;
        }
        proof {
            assert(all_empty(old(self).queues()));
        }
        None
    }

    /// Ticks the scheduler and the running task `current`, and returns
    /// whether `current` must be rescheduled.
    ///
    /// Every `RESET_TIME` ticks all queued tasks and `current` move back to
    /// the topmost level with a fresh time slice (Rule 5), and the answer is
    /// yes.  Otherwise `current` counts one tick off its time slice, and
    /// must be rescheduled once that slice is used up.
    pub fn task_tick(&mut self, current: &mut MLFQTask<T, LEVEL_NUM, BASE_TIME, RESET_TIME>) -> (r:
        bool)
        requires
            old(self).wf(),
        ensures
            final(self).wf(),
            old(self).reset_remain_ticks() <= 1 ==> {
                &&& r
                &&& final(self).reset_remain_ticks() == RESET_TIME as isize
                &&& final(self).queues() == Self::reset_all(old(self).queues())
                &&& final(current)@ == MLFQTask::<
                    T,
                    LEVEL_NUM,
                    BASE_TIME,
                    RESET_TIME,
                >::reset_view(old(current)@)
            },
            old(self).reset_remain_ticks() > 1 ==> {
                &&& r == (old(current)@.remain_time <= 1)
                &&& final(self).reset_remain_ticks() == old(self).reset_remain_ticks() - 1
                &&& final(self).queues() == old(self).queues()
                &&& final(current)@ == MLFQTask::<
                    T,
                    LEVEL_NUM,
                    BASE_TIME,
                    RESET_TIME,
                >::ticked_view(old(current)@)
            },
    {
        let ticks = self.reset_remain_ticks;
        self.reset_remain_ticks = ticks.wrapping_sub(1);
        if ticks <= 1 {
            self.reset_remain_ticks = RESET_TIME as isize;
            let ghost qs = old(self).queues();
            let mut new_queue: VecDeque<MLFQTask<T, LEVEL_NUM, BASE_TIME, RESET_TIME>> =
                VecDeque::new();
            let mut i: usize = 0;
            while i < LEVEL_NUM
                invariant
                    self.ready_queue@.len() == LEVEL_NUM,
                    qs.len() == LEVEL_NUM,
                    self.reset_remain_ticks == RESET_TIME as isize,
                    i <= LEVEL_NUM,
                    forall|l: int| 0 <= l < i ==> (#[trigger] self.ready_queue@[l])@.len() == 0,
                    forall|l: int|
                        i <= l < LEVEL_NUM ==> Self::queue_view(#[trigger] self.ready_queue@[l])
                            == qs[l],
                    Self::queue_view(new_queue) == Self::reset_seq(qs.take(i as int).flatten()),
                decreases LEVEL_NUM - i,
            {
                let ghost mut k: int = 0;
                while self.ready_queue[i].len() > 0
                    invariant
                        self.ready_queue@.len() == LEVEL_NUM,
                        qs.len() == LEVEL_NUM,
                        self.reset_remain_ticks == RESET_TIME as isize,
                        i < LEVEL_NUM,
                        0 <= k <= qs[i as int].len(),
                        forall|l: int| 0 <= l < i ==> (#[trigger] self.ready_queue@[l])@.len() == 0,
                        forall|l: int|
                            i < l < LEVEL_NUM ==> Self::queue_view(#[trigger] self.ready_queue@[l])
                                == qs[l],
                        Self::queue_view(self.ready_queue@[i as int]) == qs[i as int].skip(k),
                        Self::queue_view(new_queue) == Self::reset_seq(qs.take(i as int).flatten())
                            + Self::reset_seq(qs[i as int].take(k)),
                    decreases self.ready_queue@[i as int]@.len(),
                {
                    let ghost before = self.ready_queue@;
                    let ghost nqd = new_queue;
                    match self.ready_queue[i].pop_front() {
                        Some(item) => {
                            let ghost iv = item@;
                            let mut item = item;
                            item.reset_prio();
                            new_queue.push_back(item);
                            proof {
                                let bq = before[i as int]@;
                                let bv = Self::queue_view(before[i as int]);
                                assert(bv == qs[i as int].skip(k));
                                assert(bv.len() == bq.len());
                                assert(bv[0] == bq[0]@);
                                assert(iv == qs[i as int][k]);
                                assert forall|l: int| 0 <= l < LEVEL_NUM && l != i implies #[trigger] self.ready_queue@[l] == before[l] by {}
                                let cur = self.ready_queue@[i as int]@;
                                assert(cur == bq.subrange(1, bq.len() as int));
                                assert forall|j: int| 0 <= j < cur.len() implies #[trigger] Self::queue_view(self.ready_queue@[i as int])[j] == qs[i as int].skip(k + 1)[j] by {
                                    assert(bv[j + 1] == bq[j + 1]@);
                                }
                                assert(Self::queue_view(self.ready_queue@[i as int]) =~= qs[i as int].skip(k + 1));
                                let nv = Self::queue_view(nqd);
                                assert(Self::queue_view(new_queue) =~= nv.push(MLFQTask::<T, LEVEL_NUM, BASE_TIME, RESET_TIME>::reset_view(iv)));
                                assert(qs[i as int].take(k + 1) =~= qs[i as int].take(k).push(qs[i as int][k]));
                                assert(Self::reset_seq(qs[i as int].take(k + 1)) =~= Self::reset_seq(qs[i as int].take(k)).push(MLFQTask::<T, LEVEL_NUM, BASE_TIME, RESET_TIME>::reset_view(iv)));
                                assert(Self::queue_view(new_queue) =~= Self::reset_seq(qs.take(i as int).flatten())
                                    + Self::reset_seq(qs[i as int].take(k + 1)));
                                k = k + 1;
                            }
                        },
                        None => {},
                    }
                }
                proof {
                    assert(k == qs[i as int].len());
                    assert(qs[i as int].take(k) =~= qs[i as int]);
                    assert(qs.take(i as int + 1) =~= qs.take(i as int).push(qs[i as int]));
                    qs.take(i as int).lemma_flatten_push(qs[i as int]);
                    assert(Self::reset_seq(qs.take(i as int + 1).flatten()) =~= Self::reset_seq(
                        qs.take(i as int).flatten(),
                    ) + Self::reset_seq(qs[i as int]));
                }
                i += 1;
            }
            proof {
                assert(qs.take(LEVEL_NUM as int) =~= qs);
            }
            self.ready_queue.set(0, new_queue);
            let mut j: usize = 1;
            while j < LEVEL_NUM
                invariant
                    self.ready_queue@.len() == LEVEL_NUM,
                    1 <= j <= LEVEL_NUM,
                    self.reset_remain_ticks == RESET_TIME as isize,
                    Self::queue_view(self.ready_queue@[0]) == Self::reset_seq(qs.flatten()),
                    forall|l: int| 1 <= l < LEVEL_NUM ==> (#[trigger] self.ready_queue@[l])@.len() == 0,
                decreases LEVEL_NUM - j,
            {
                self.ready_queue[j].clear();
                j += 1;
            }
            current.reset_prio();
            proof {
                let after = self.queues();
                assert(self.reset_remain_ticks == RESET_TIME as isize);
                assert(after =~= Self::reset_all(qs)) by {
                    assert forall|l: int| 0 <= l < LEVEL_NUM implies #[trigger] after[l] =~= Self::reset_all(qs)[l] by {
                        if l > 0 {
                            assert(self.ready_queue@[l]@.len() == 0);
                        }
                    }
                }
            }
            return true;
        }
        current.tick() <= 1
    }

    /// Changing a task's priority from outside is not supported: returns
    /// `false` and changes nothing.
    pub fn set_priority(
        &mut self,
        task: &MLFQTask<T, LEVEL_NUM, BASE_TIME, RESET_TIME>,
        prio: isize,
    ) -> (r: bool)
        ensures
            !r,
            *final(self) == *old(self),
    {
        false
    }

    /// Removes `task` from the queue of its priority level and returns it:
    /// the first task of that queue with `task`'s identifier, or nothing
    /// when no such task is queued there.
    pub fn remove_task(&mut self, task: &MLFQTask<T, LEVEL_NUM, BASE_TIME, RESET_TIME>) -> (r: Option<
        MLFQTask<T, LEVEL_NUM, BASE_TIME, RESET_TIME>,
    >)
        requires
            old(self).wf(),
        ensures
            final(self).wf(),
            removed(
                old(self).queues(),
                task@.priority as int,
                task@.id,
                match r {
                    Some(t) => Some(t@),
                    None => None,
                },
                final(self).queues(),
            ),
            final(self).reset_remain_ticks() == old(self).reset_remain_ticks(),
    {
        proof {
            use_type_invariant(&task);
        }
        let p = task.get_prio() as usize;
        let len = self.ready_queue[p].len();
        let mut i: usize = 0;
        while i < len
            invariant
                *self == *old(self),
                self.wf(),
                0 <= p < LEVEL_NUM,
                p == task@.priority,
                len == self.queues()[p as int].len(),
                i <= len,
                forall|j: int| 0 <= j < i ==> (#[trigger] self.queues()[p as int][j]).id != task@.id,
            decreases len - i,
        {
            proof {
                assert(self.queues()[p as int][i as int] == self.ready_queue@[p as int]@[i as int]@);
            }
            if self.ready_queue[p][i].id == task.id {
                let r = self.ready_queue[p].remove(i);
                proof {
                    let l = p as int;
                    Self::lemma_queues_update(old(self).ready_queue@, l, self.ready_queue@[l]);
                    let oq = old(self).ready_queue@[l]@;
                    assert(Self::queue_view(self.ready_queue@[l]) =~= old(self).queues()[l].remove(i as int)) by {
                        assert forall|j: int| 0 <= j < oq.len() - 1 implies #[trigger] Self::queue_view(self.ready_queue@[l])[j] == old(self).queues()[l].remove(i as int)[j] by {
                            if j < i {
                                assert(old(self).queues()[l][j] == oq[j]@);
                            } else {
                                assert(old(self).queues()[l][j + 1] == oq[j + 1]@);
                            }
                        }
                    }
                    assert(is_first_match(old(self).queues()[l], task@.id, i as int));
                    assert(old(self).queues()[l][i as int] == oq[i as int]@);
                    let after = self.queues();
                    assert forall|k: int, j: int|
                        0 <= k < after.len() && 0 <= j < after[k].len() implies #[trigger] after[k][j].priority == k by {
                        if k == l && j >= i {
                            assert(after[k][j] == old(self).queues()[k][j + 1]);
                        }
                    }
                }
                return r;
            }
            i += 1;
        }
        None
    }

    /// Every task moved back to the topmost level: level `0` holds all
    /// tasks, level by level and each queue in order, with reset priority
    /// and time slice; the other levels are empty.
    pub open spec fn reset_all(qs: Seq<Seq<MLFQTaskView<T>>>) -> Seq<Seq<MLFQTaskView<T>>> {
        Seq::new(
            qs.len(),
            |l: int|
                if l == 0 {
                    Self::reset_seq(qs.flatten())
                } else {
                    Seq::<MLFQTaskView<T>>::empty()
                },
        )
    }

    /// Every task of `s` moved back to the topmost level.
    pub open spec fn reset_seq(s: Seq<MLFQTaskView<T>>) -> Seq<MLFQTaskView<T>> {
        s.map_values(
            |t: MLFQTaskView<T>| MLFQTask::<T, LEVEL_NUM, BASE_TIME, RESET_TIME>::reset_view(t),
        )
    }

    /// Rule 5: after a reset every task sits at the topmost level, with the
    /// topmost priority and a full time slice, and no task is lost or added:
    /// the topmost level holds the tasks of all levels, in order.
    pub proof fn lemma_reset_keeps_every_task(qs: Seq<Seq<MLFQTaskView<T>>>)
        requires
            qs.len() > 0,
        ensures
            levels_consistent(Self::reset_all(qs)),
            Self::reset_all(qs).len() == qs.len(),
            Self::reset_all(qs)[0].len() == qs.flatten().len(),
            forall|i: int|
                0 <= i < qs.flatten().len() ==> {
                    &&& (#[trigger] Self::reset_all(qs)[0][i]).inner == qs.flatten()[i].inner
                    &&& Self::reset_all(qs)[0][i].priority == 0
                    &&& Self::reset_all(qs)[0][i].remain_time == BASE_TIME as isize
                },
            forall|l: int| 1 <= l < qs.len() ==> (#[trigger] Self::reset_all(qs)[l]).len() == 0,
    {
        let ra = Self::reset_all(qs);
        assert forall|l: int, i: int| 0 <= l < ra.len() && 0 <= i < ra[l].len() implies #[trigger] ra[l][i].priority == l by {
            if l == 0 {
                assert(ra[0] == Self::reset_seq(qs.flatten()));
            }
        }
    }

    /// Puts the task that was running back into the queues.
    ///
    /// A task that used up its time slice is demoted one level and joins
    /// the back of that level's queue (Rule 4).  Otherwise it gets a fresh
    /// time slice and joins the front of its queue when it was preempted,
    /// the back when it gave up the CPU (Rule 2).
    pub fn put_prev_task(&mut self, prev: MLFQTask<T, LEVEL_NUM, BASE_TIME, RESET_TIME>, preempt: bool)
        requires
            old(self).wf(),
            prev@.remain_time <= 0 ==> MLFQTask::<T, LEVEL_NUM, BASE_TIME, RESET_TIME>::can_demote(prev@),
            prev@.remain_time > 0 ==> MLFQTask::<T, LEVEL_NUM, BASE_TIME, RESET_TIME>::can_reset_time(prev@),
        ensures
            final(self).wf(),
            final(self).reset_remain_ticks() == old(self).reset_remain_ticks(),
            prev@.remain_time <= 0 ==> {
                let t = MLFQTask::<T, LEVEL_NUM, BASE_TIME, RESET_TIME>::demoted_view(prev@);
                final(self).queues() == enqueued_back(old(self).queues(), t.priority as int, t)
            },
            prev@.remain_time > 0 && preempt ==> final(self).queues() == enqueued_front(
                old(self).queues(),
                prev@.priority as int,
                MLFQTask::<T, LEVEL_NUM, BASE_TIME, RESET_TIME>::time_reset_view(prev@),
            ),
            prev@.remain_time > 0 && !preempt ==> final(self).queues() == enqueued_back(
                old(self).queues(),
                prev@.priority as int,
                MLFQTask::<T, LEVEL_NUM, BASE_TIME, RESET_TIME>::time_reset_view(prev@),
            ),
    {
        proof {
            use_type_invariant(&prev);
        }
        let ghost p0 = prev@.priority;
        let mut prev = prev;
        if prev.get_remain() <= 0 {
            prev.prio_demote();
            proof {
                lemma_demoted_prio_in_levels(LEVEL_NUM, p0);
            }
            let p = prev.get_prio() as usize;
            let ghost t = prev@;
            self.ready_queue[p].push_back(prev);
            proof {
                Self::lemma_queues_update(old(self).ready_queue@, p as int, self.ready_queue@[p as int]);
                assert(Self::queue_view(self.ready_queue@[p as int]) =~= old(self).queues()[p as int].push(t));
            }
        } else if preempt {
            prev.reset_time();
            let p = prev.get_prio() as usize;
            let ghost t = prev@;
            self.ready_queue[p].push_front(prev);
            proof {
                Self::lemma_queues_update(old(self).ready_queue@, p as int, self.ready_queue@[p as int]);
                assert(Self::queue_view(self.ready_queue@[p as int]) =~= seq![t] + old(self).queues()[p as int]);
                let after = self.queues();
                assert forall|k: int, j: int|
                    0 <= k < after.len() && 0 <= j < after[k].len() implies #[trigger] after[k][j].priority == k by {
                    if k == p && j > 0 {
                        assert(after[k][j] == old(self).queues()[k][j - 1]);
                    }
                }
            }
        } else {
            prev.reset_time();
            let p = prev.get_prio() as usize;
            let ghost t = prev@;
            self.ready_queue[p].push_back(prev);
            proof {
                Self::lemma_queues_update(old(self).ready_queue@, p as int, self.ready_queue@[p as int]);
                assert(Self::queue_view(self.ready_queue@[p as int]) =~= old(self).queues()[p as int].push(t));
            }
        }
    }
}


} // verus!
