//! The tables behind semaphore deadlock detection, and the safety check over them.
//!
//! `sem_alloc` has one row per thread: how many units of each semaphore the thread holds.
//! `sem_wait_for` says which semaphore each thread is blocked on.

use vstd::prelude::*;

verus! {

/// The rows of an allocation table.
pub open spec fn alloc_view(sem_alloc: Seq<Vec<isize>>) -> Seq<Seq<isize>> {
    Seq::new(sem_alloc.len(), |i: int| sem_alloc[i]@)
}

/// How many units of semaphore `j` thread `i` holds.
pub open spec fn held(alloc: Seq<Seq<isize>>, i: int, j: int) -> int {
    if 0 <= i < alloc.len() && 0 <= j < alloc[i].len() {
        alloc[i][j] as int
    } else {
        0
    }
}

/// No thread holds a negative number of units.
pub open spec fn alloc_wf(alloc: Seq<Seq<isize>>) -> bool {
    forall|i: int, j: int|
        0 <= i < alloc.len() && 0 <= j < alloc[i].len() ==> #[trigger] alloc[i][j] >= 0
}

/// Whether no thread holds a negative number of units.
pub fn none_negative(sem_alloc: &Vec<Vec<isize>>) -> (ok: bool)
    ensures
        ok == alloc_wf(alloc_view(sem_alloc@)),
{
    let ghost alloc = alloc_view(sem_alloc@);
    let mut i: usize = 0;
    while i < sem_alloc.len()
        invariant
            i <= sem_alloc.len(),
            alloc == alloc_view(sem_alloc@),
            forall|a: int, b: int|
                0 <= a < i && 0 <= b < alloc[a].len() ==> #[trigger] alloc[a][b] >= 0,
        decreases sem_alloc.len() - i,
    {
        let row = &sem_alloc[i];
        let mut j: usize = 0;
        while j < row.len()
            invariant
                i < sem_alloc.len(),
                j <= row.len(),
                alloc == alloc_view(sem_alloc@),
                alloc[i as int] == row@,
                forall|b: int| 0 <= b < j ==> #[trigger] alloc[i as int][b] >= 0,
            decreases row.len() - j,
        {
            if row[j] < 0 {
                assert(alloc[i as int][j as int] < 0);
                return false;
            }
            j += 1;
        }
        i += 1;
    }
    true
}

/// Whether thread `i` holds at least one unit of some semaphore.
pub open spec fn holds_any(alloc: Seq<Seq<isize>>, i: int) -> bool {
    exists|j: int| 0 <= j < alloc[i].len() && #[trigger] alloc[i][j] > 0
}

/// The semaphore that thread `i` is blocked on.
pub open spec fn waits_on(wait_for: Seq<Option<usize>>, i: int) -> Option<usize> {
    if 0 <= i < wait_for.len() {
        wait_for[i]
    } else {
        None
    }
}

/// The units of semaphore `j` that the threads in `order` give back when they complete.
pub open spec fn released(alloc: Seq<Seq<isize>>, order: Seq<int>, j: int) -> int
    decreases order.len(),
{
    if order.len() == 0 {
        0
    } else {
        released(alloc, order.drop_last(), j) + held(alloc, order.last(), j)
    }
}

/// The units of semaphore `j` that are free once the threads in `order` have completed.
pub open spec fn free_after(
    alloc: Seq<Seq<isize>>,
    avail: Seq<isize>,
    order: Seq<int>,
    j: int,
) -> int {
    avail[j] + released(alloc, order, j)
}

/// Thread `i` can complete once the threads in `order` have: it waits for nothing, or for a
/// semaphore of which a unit is free by then.
pub open spec fn can_complete(
    alloc: Seq<Seq<isize>>,
    wait_for: Seq<Option<usize>>,
    avail: Seq<isize>,
    order: Seq<int>,
    i: int,
) -> bool {
    match waits_on(wait_for, i) {
        None => true,
        Some(s) => s < avail.len() && free_after(alloc, avail, order, s as int) >= 1,
    }
}

/// The threads in `order` are distinct and can complete one after the other.
pub open spec fn completion_order(
    alloc: Seq<Seq<isize>>,
    wait_for: Seq<Option<usize>>,
    avail: Seq<isize>,
    order: Seq<int>,
) -> bool {
    &&& order.no_duplicates()
    &&& forall|k: int| 0 <= k < order.len() ==> 0 <= #[trigger] order[k] < alloc.len()
    &&& forall|k: int|
        0 <= k < order.len() ==> can_complete(
            alloc,
            wait_for,
            avail,
            order.take(k),
            #[trigger] order[k],
        )
}

/// Everything that some thread holds can be given back: there is an order in which threads can
/// complete that leaves out no thread that holds a unit.
pub open spec fn safe_state(
    alloc: Seq<Seq<isize>>,
    wait_for: Seq<Option<usize>>,
    avail: Seq<isize>,
) -> bool {
    exists|order: Seq<int>|
        #[trigger] completion_order(alloc, wait_for, avail, order) && forall|i: int|
            0 <= i < alloc.len() && #[trigger] holds_any(alloc, i) ==> order.contains(i)
}

proof fn lemma_released_push(alloc: Seq<Seq<isize>>, order: Seq<int>, i: int, j: int)
    ensures
        released(alloc, order.push(i), j) == released(alloc, order, j) + held(alloc, i, j),
{
    assert(order.push(i).drop_last() =~= order);
}

proof fn lemma_released_bounds(alloc: Seq<Seq<isize>>, order: Seq<int>, j: int)
    requires
        alloc_wf(alloc),
    ensures
        0 <= released(alloc, order, j) <= order.len() * isize::MAX,
    decreases order.len(),
{
    if order.len() > 0 {
        lemma_released_bounds(alloc, order.drop_last(), j);
        let last = order.last();
        if 0 <= last < alloc.len() && 0 <= j < alloc[last].len() {
            assert(alloc[last][j] >= 0);
        }
        assert((order.len() - 1) * isize::MAX + isize::MAX == order.len() * isize::MAX)
            by (nonlinear_arith);
    }
}

/// A list of distinct numbers below `n` has at most `n` entries.
proof fn lemma_distinct_below(order: Seq<int>, n: int)
    requires
        0 <= n,
        order.no_duplicates(),
        forall|k: int| 0 <= k < order.len() ==> 0 <= #[trigger] order[k] < n,
    ensures
        order.len() <= n,
{
    order.unique_seq_to_set();
    let range = vstd::set_lib::set_int_range(0, n);
    vstd::set_lib::lemma_int_range(0, n);
    assert(order.to_set().subset_of(range));
    vstd::set_lib::lemma_len_subset(order.to_set(), range);
}

/// Dropping distinct threads from a list only lowers what it releases.
proof fn lemma_released_subset(alloc: Seq<Seq<isize>>, small: Seq<int>, big: Seq<int>, j: int)
    requires
        alloc_wf(alloc),
        small.no_duplicates(),
        forall|k: int| 0 <= k < small.len() ==> big.contains(#[trigger] small[k]),
    ensures
        released(alloc, small, j) <= released(alloc, big, j),
    decreases small.len(),
{
    if small.len() == 0 {
        lemma_released_bounds(alloc, big, j);
    } else {
        let last = small.last();
        assert(big.contains(small[small.len() - 1]));
        let at = big.index_of(last);
        let rest = big.remove(at);
        lemma_released_remove(alloc, big, at, j);
        let head = small.drop_last();
        assert forall|k: int| 0 <= k < head.len() implies rest.contains(#[trigger] head[k]) by {
            assert(head[k] == small[k]);
            assert(big.contains(small[k]));
            let b = big.index_of(small[k]);
            assert(b != at);
            if b < at {
                assert(rest[b] == small[k]);
            } else {
                assert(rest[b - 1] == small[k]);
            }
        }
        lemma_released_subset(alloc, head, rest, j);
    }
}

proof fn lemma_released_remove(alloc: Seq<Seq<isize>>, order: Seq<int>, at: int, j: int)
    requires
        0 <= at < order.len(),
    ensures
        released(alloc, order, j) == released(alloc, order.remove(at), j) + held(
            alloc,
            order[at],
            j,
        ),
    decreases order.len(),
{
    if at == order.len() - 1 {
        assert(order.remove(at) =~= order.drop_last());
    } else {
        let head = order.drop_last();
        lemma_released_remove(alloc, head, at, j);
        assert(order.remove(at).drop_last() =~= head.remove(at));
        assert(order.remove(at).last() == order.last());
    }
}

/// A completion order that nothing can be added to holds every thread of every other one.
proof fn lemma_maximal_order(
    alloc: Seq<Seq<isize>>,
    wait_for: Seq<Option<usize>>,
    avail: Seq<isize>,
    full: Seq<int>,
    other: Seq<int>,
    upto: int,
)
    requires
        alloc_wf(alloc),
        forall|i: int|
            0 <= i < alloc.len() && !full.contains(i) ==> !#[trigger] can_complete(
                alloc,
                wait_for,
                avail,
                full,
                i,
            ),
        completion_order(alloc, wait_for, avail, other),
        0 <= upto <= other.len(),
    ensures
        forall|k: int| 0 <= k < upto ==> full.contains(#[trigger] other[k]),
    decreases upto,
{
    if upto > 0 {
        lemma_maximal_order(alloc, wait_for, avail, full, other, upto - 1);
        let k = upto - 1;
        let i = other[k];
        let before = other.take(k);
        assert(can_complete(alloc, wait_for, avail, before, other[k]));
        if !full.contains(i) {
            assert(!can_complete(alloc, wait_for, avail, full, i));
            let s = waits_on(wait_for, i)->0;
            assert(before.no_duplicates());
            assert forall|m: int| 0 <= m < before.len() implies full.contains(
                #[trigger] before[m],
            ) by {
                assert(before[m] == other[m]);
            }
            lemma_released_subset(alloc, before, full, s as int);
            assert(false);
        }
    }
}

proof fn lemma_order_push(
    alloc: Seq<Seq<isize>>,
    wait_for: Seq<Option<usize>>,
    avail: Seq<isize>,
    order: Seq<int>,
    i: int,
)
    requires
        completion_order(alloc, wait_for, avail, order),
        0 <= i < alloc.len(),
        !order.contains(i),
        can_complete(alloc, wait_for, avail, order, i),
    ensures
        completion_order(alloc, wait_for, avail, order.push(i)),
        forall|x: int| #[trigger] order.push(i).contains(x) <==> order.contains(x) || x == i,
{
    let next = order.push(i);
    assert forall|k: int| 0 <= k < next.len() implies can_complete(
        alloc,
        wait_for,
        avail,
        next.take(k),
        #[trigger] next[k],
    ) by {
        if k < order.len() {
            assert(next.take(k) =~= order.take(k));
            assert(next[k] == order[k]);
        } else {
            assert(next.take(k) =~= order);
        }
    }
    assert forall|x: int| #[trigger] next.contains(x) <==> order.contains(x) || x == i by {
        if order.contains(x) {
            assert(next[order.index_of(x)] == x);
        }
        assert(next[order.len() as int] == i);
    }
}

/// Adds row `i` of the allocation table to `work`.
fn release_row(
    sem_alloc: &[Vec<isize>],
    i: usize,
    work: &mut Vec<i128>,
    Ghost(order): Ghost<Seq<int>>,
    Ghost(avail): Ghost<Seq<isize>>,
)
    requires
        i < sem_alloc.len(),
        alloc_wf(alloc_view(sem_alloc@)),
        order.len() < sem_alloc.len(),
        old(work).len() == avail.len(),
        forall|j: int|
            0 <= j < avail.len() ==> #[trigger] old(work)@[j] == free_after(
                alloc_view(sem_alloc@),
                avail,
                order,
                j,
            ),
    ensures
        final(work).len() == avail.len(),
        forall|j: int|
            0 <= j < avail.len() ==> #[trigger] final(work)@[j] == free_after(
                alloc_view(sem_alloc@),
                avail,
                order.push(i as int),
                j,
            ),
{
    let ghost alloc = alloc_view(sem_alloc@);
    let ghost before = work@;
    let n: usize = work.len();
    let mut j: usize = 0;
    while j < n
        invariant
            n == avail.len(),
            work.len() == n,
            j <= n,
            i < sem_alloc.len(),
            alloc == alloc_view(sem_alloc@),
            alloc_wf(alloc),
            order.len() < sem_alloc.len(),
            before.len() == n,
            forall|m: int|
                0 <= m < n ==> #[trigger] before[m] == free_after(alloc, avail, order, m),
            forall|m: int| j <= m < n ==> #[trigger] work@[m] == before[m],
            forall|m: int|
                0 <= m < j ==> #[trigger] work@[m] == free_after(
                    alloc,
                    avail,
                    order.push(i as int),
                    m,
                ),
        decreases n - j,
    {
        proof {
            lemma_released_push(alloc, order, i as int, j as int);
            lemma_released_bounds(alloc, order, j as int);
            assert(work@[j as int] == before[j as int]);
            assert(order.len() * isize::MAX <= usize::MAX * isize::MAX) by (nonlinear_arith)
                requires
                    order.len() <= usize::MAX,
            ;
        }
        if j < sem_alloc[i].len() {
            let unit: isize = sem_alloc[i][j];
            assert(alloc[i as int][j as int] == unit);
            work[j] = work[j] + unit as i128;
        }
        j += 1;
    }
}

/// Whether some entry of `row` is positive.
fn any_positive(row: &Vec<isize>) -> (any: bool)
    ensures
        any == exists|j: int| 0 <= j < row.len() && #[trigger] row@[j] > 0,
{
    let mut j: usize = 0;
    while j < row.len()
        invariant
            j <= row.len(),
            forall|m: int| 0 <= m < j ==> #[trigger] row@[m] <= 0,
        decreases row.len() - j,
    {
        if row[j] > 0 {
            return true;
        }
        j += 1;
    }
    false
}

/// The semaphore that thread `i` is blocked on, if any.
fn wait_entry(sem_wait_for: &[Option<usize>], i: usize) -> (entry: Option<usize>)
    ensures
        entry == waits_on(sem_wait_for@, i as int),
{
    if i < sem_wait_for.len() {
        sem_wait_for[i]
    } else {
        None
    }
}

/// Banker's algorithm safety check: true if the system is in a safe state (no deadlock).
///
/// - `sem_alloc`: the units that each thread holds
/// - `sem_wait_for`: the semaphore that each thread is blocked on; a thread about to block is
///   already marked
/// - `avail`: the units of each semaphore that are free
pub fn is_safe_state(
    sem_alloc: &[Vec<isize>],
    sem_wait_for: &[Option<usize>],
    avail: &[isize],
) -> (safe: bool)
    requires
        alloc_wf(alloc_view(sem_alloc@)),
    ensures
        safe == safe_state(alloc_view(sem_alloc@), sem_wait_for@, avail@),
{
    let ghost alloc = alloc_view(sem_alloc@);
    let thread_count: usize = sem_alloc.len();
    let sem_count: usize = avail.len();
    let mut work: Vec<i128> = Vec::new();
    let mut j: usize = 0;
    while j < sem_count
        invariant
            j <= sem_count,
            sem_count == avail.len(),
            work.len() == j,
            forall|m: int| 0 <= m < j ==> #[trigger] work@[m] == avail@[m],
        decreases sem_count - j,
    {
        work.push(avail[j] as i128);
        j += 1;
    }
    let mut finish: Vec<bool> = Vec::new();
    let ghost mut order: Seq<int> = Seq::empty();

    // Threads that are not blocked can always complete and release what they hold.
    let mut i: usize = 0;
    while i < thread_count
        invariant
            i <= thread_count,
            alloc == alloc_view(sem_alloc@),
            alloc_wf(alloc),
            thread_count == sem_alloc.len(),
            sem_count == avail.len(),
            finish.len() == i,
            work.len() == sem_count,
            order.len() <= i,
            completion_order(alloc, sem_wait_for@, avail@, order),
            forall|t: int| i <= t ==> !#[trigger] order.contains(t),
            forall|t: int| 0 <= t < i ==> #[trigger] finish@[t] == order.contains(t),
            forall|t: int|
                0 <= t < i && !order.contains(t) ==> #[trigger] waits_on(
                    sem_wait_for@,
                    t,
                ) is Some,
            forall|m: int|
                0 <= m < sem_count ==> #[trigger] work@[m] == free_after(
                    alloc,
                    avail@,
                    order,
                    m,
                ),
        decreases thread_count - i,
    {
        let blocked = match wait_entry(sem_wait_for, i) {
            Some(wait_sem) => wait_sem >= sem_count || avail[wait_sem] <= 0,
            None => false,
        };
        if !blocked {
            release_row(sem_alloc, i, &mut work, Ghost(order), Ghost(avail@));
            proof {
                if let Some(s) = waits_on(sem_wait_for@, i as int) {
                    lemma_released_bounds(alloc, order, s as int);
                }
                lemma_order_push(alloc, sem_wait_for@, avail@, order, i as int);
                order = order.push(i as int);
            }
        }
        finish.push(!blocked);
        i += 1;
    }

    // Repeatedly complete the blocked threads whose need the free units meet.
    let mut found = true;
    while found
        invariant
            alloc == alloc_view(sem_alloc@),
            alloc_wf(alloc),
            thread_count == sem_alloc.len(),
            sem_count == avail.len(),
            finish.len() == thread_count,
            work.len() == sem_count,
            completion_order(alloc, sem_wait_for@, avail@, order),
            forall|t: int| 0 <= t < thread_count ==> #[trigger] finish@[t] == order.contains(t),
            forall|t: int|
                0 <= t < thread_count && !order.contains(t) ==> #[trigger] waits_on(
                    sem_wait_for@,
                    t,
                ) is Some,
            forall|m: int|
                0 <= m < sem_count ==> #[trigger] work@[m] == free_after(
                    alloc,
                    avail@,
                    order,
                    m,
                ),
            !found ==> forall|t: int|
                0 <= t < thread_count && !order.contains(t) ==> !#[trigger] can_complete(
                    alloc,
                    sem_wait_for@,
                    avail@,
                    order,
                    t,
                ),
            order.len() <= thread_count,
        decreases thread_count - order.len() + if found { 1int } else { 0int },
    {
        found = false;
        let ghost before = order;
        let mut i: usize = 0;
        while i < thread_count
            invariant
                i <= thread_count,
                alloc == alloc_view(sem_alloc@),
                alloc_wf(alloc),
                thread_count == sem_alloc.len(),
                sem_count == avail.len(),
                finish.len() == thread_count,
                work.len() == sem_count,
                completion_order(alloc, sem_wait_for@, avail@, order),
                forall|t: int|
                    0 <= t < thread_count ==> #[trigger] finish@[t] == order.contains(t),
                forall|t: int|
                    0 <= t < thread_count && !order.contains(t) ==> #[trigger] waits_on(
                        sem_wait_for@,
                        t,
                    ) is Some,
                forall|m: int|
                    0 <= m < sem_count ==> #[trigger] work@[m] == free_after(
                        alloc,
                        avail@,
                        order,
                        m,
                    ),
                !found ==> order == before && forall|t: int|
                    0 <= t < i && !order.contains(t) ==> !#[trigger] can_complete(
                        alloc,
                        sem_wait_for@,
                        avail@,
                        order,
                        t,
                    ),
                found ==> order.len() > before.len(),
                order.len() <= thread_count,
            decreases thread_count - i,
        {
            if !finish[i] {
                let ready = match wait_entry(sem_wait_for, i) {
                    Some(need) => need < sem_count && work[need] >= 1,
                    None => false,
                };
                // A thread that waits for nothing has completed already.
                assert(waits_on(sem_wait_for@, i as int) is Some);
                if ready {
                    proof {
                        lemma_order_push(alloc, sem_wait_for@, avail@, order, i as int);
                        lemma_distinct_below(order.push(i as int), thread_count as int);
                    }
                    release_row(sem_alloc, i, &mut work, Ghost(order), Ghost(avail@));
                    proof {
                        order = order.push(i as int);
                    }
                    finish.set(i, true);
                    found = true;
                }
            }
            i += 1;
        }
    }

    // A thread that holds units and cannot complete keeps them for ever.
    let mut i: usize = 0;
    while i < thread_count
        invariant
            i <= thread_count,
            alloc == alloc_view(sem_alloc@),
            alloc_wf(alloc),
            thread_count == sem_alloc.len(),
            finish.len() == thread_count,
            completion_order(alloc, sem_wait_for@, avail@, order),
            forall|t: int| 0 <= t < thread_count ==> #[trigger] finish@[t] == order.contains(t),
            forall|t: int|
                0 <= t < thread_count && !order.contains(t) ==> !#[trigger] can_complete(
                    alloc,
                    sem_wait_for@,
                    avail@,
                    order,
                    t,
                ),
            forall|t: int| 0 <= t < i && #[trigger] holds_any(alloc, t) ==> order.contains(t),
        decreases thread_count - i,
    {
        if any_positive(&sem_alloc[i]) {
            assert(holds_any(alloc, i as int)) by {
                let row = sem_alloc@[i as int]@;
                assert(alloc[i as int] == row);
                let j = choose|j: int| 0 <= j < row.len() && #[trigger] row[j] > 0;
                assert(alloc[i as int][j] > 0);
            }
            if !finish[i] {
                proof {
                    assert forall|other: Seq<int>| #[trigger]
                        completion_order(
                            alloc,
                            sem_wait_for@,
                            avail@,
                            other,
                        ) implies !other.contains(i as int) by {
                        lemma_maximal_order(
                            alloc,
                            sem_wait_for@,
                            avail@,
                            order,
                            other,
                            other.len() as int,
                        );
                    }
                }
                return false;
            }
        }
        i += 1;
    }
    true
}

/// `row` with zeros added until it has `sem_count` entries.
pub open spec fn padded_row(row: Seq<isize>, sem_count: int) -> Seq<isize> {
    Seq::new(
        if row.len() < sem_count {
            sem_count as nat
        } else {
            row.len()
        },
        |j: int|
            if j < row.len() {
                row[j]
            } else {
                0isize
            },
    )
}

/// `alloc` with rows and entries of zeros added until there are `thread_count` rows and every row
/// has `sem_count` entries.
pub open spec fn padded_alloc(
    alloc: Seq<Seq<isize>>,
    thread_count: int,
    sem_count: int,
) -> Seq<Seq<isize>> {
    Seq::new(
        if alloc.len() < thread_count {
            thread_count as nat
        } else {
            alloc.len()
        },
        |i: int|
            padded_row(
                if i < alloc.len() {
                    alloc[i]
                } else {
                    Seq::empty()
                },
                sem_count,
            ),
    )
}

/// `wait_for` with empty entries added until there are `thread_count`.
pub open spec fn padded_wait(wait_for: Seq<Option<usize>>, thread_count: int) -> Seq<
    Option<usize>,
> {
    Seq::new(
        if wait_for.len() < thread_count {
            thread_count as nat
        } else {
            wait_for.len()
        },
        |i: int| waits_on(wait_for, i),
    )
}

/// `alloc` after thread `i` has taken `delta` more units of semaphore `j`.
pub open spec fn adjusted(alloc: Seq<Seq<isize>>, i: int, j: int, delta: int) -> Seq<Seq<isize>> {
    alloc.update(i, alloc[i].update(j, (alloc[i][j] + delta) as isize))
}

/// Ensures that the allocation table is large enough: at least `thread_count` rows, each with at
/// least `sem_count` entries.
pub fn ensure_sem_alloc(sem_alloc: &mut Vec<Vec<isize>>, thread_count: usize, sem_count: usize)
    ensures
        alloc_view(final(sem_alloc)@) == padded_alloc(
            alloc_view(old(sem_alloc)@),
            thread_count as int,
            sem_count as int,
        ),
{
    let ghost before = alloc_view(sem_alloc@);
    while sem_alloc.len() < thread_count
        invariant
            before.len() <= sem_alloc.len(),
            sem_alloc.len() <= thread_count || sem_alloc.len() == before.len(),
            forall|i: int| 0 <= i < before.len() ==> #[trigger] sem_alloc@[i]@ == before[i],
            forall|i: int|
                before.len() <= i < sem_alloc.len() ==> #[trigger] sem_alloc@[i]@ == padded_row(
                    Seq::empty(),
                    sem_count as int,
                ),
        decreases thread_count - sem_alloc.len(),
    {
        let row: Vec<isize> = vec![0; sem_count];
        assert(row@ =~= padded_row(Seq::empty(), sem_count as int));
        sem_alloc.push(row);
    }
    let ghost wide = alloc_view(sem_alloc@);
    let mut i: usize = 0;
    while i < sem_alloc.len()
        invariant
            i <= sem_alloc.len(),
            wide.len() == sem_alloc.len(),
            forall|k: int|
                0 <= k < i ==> #[trigger] sem_alloc@[k]@ == padded_row(
                    wide[k],
                    sem_count as int,
                ),
            forall|k: int| i <= k < wide.len() ==> #[trigger] sem_alloc@[k]@ == wide[k],
        decreases sem_alloc.len() - i,
    {
        let ghost rows = sem_alloc@;
        while sem_alloc[i].len() < sem_count
            invariant
                i < sem_alloc.len(),
                wide.len() == sem_alloc.len(),
                rows.len() == wide.len(),
                wide[i as int].len() <= sem_alloc@[i as int].len(),
                sem_alloc@[i as int].len() <= sem_count || sem_alloc@[i as int].len()
                    == wide[i as int].len(),
                forall|j: int|
                    0 <= j < sem_alloc@[i as int].len() ==> #[trigger] sem_alloc@[i as int]@[j]
                        == if j < wide[i as int].len() {
                        wide[i as int][j]
                    } else {
                        0
                    },
                forall|k: int|
                    0 <= k < wide.len() && k != i ==> #[trigger] sem_alloc@[k] == rows[k],
            decreases sem_count - sem_alloc@[i as int].len(),
        {
            sem_alloc[i].push(0);
        }
        assert(sem_alloc@[i as int]@ =~= padded_row(wide[i as int], sem_count as int));
        i += 1;
    }
    assert(alloc_view(sem_alloc@) =~= padded_alloc(
        before,
        thread_count as int,
        sem_count as int,
    )) by {
        assert forall|k: int| 0 <= k < sem_alloc.len() implies alloc_view(sem_alloc@)[k]
            == padded_alloc(before, thread_count as int, sem_count as int)[k] by {
            if k >= before.len() {
                assert(padded_row(wide[k], sem_count as int) =~= padded_row(
                    Seq::empty(),
                    sem_count as int,
                ));
            }
        }
    }
}

/// Ensures that the wait table has an entry for each of `thread_count` threads.
pub fn ensure_sem_wait_for(sem_wait_for: &mut Vec<Option<usize>>, thread_count: usize)
    ensures
        final(sem_wait_for)@ == padded_wait(old(sem_wait_for)@, thread_count as int),
{
    let ghost before = sem_wait_for@;
    while sem_wait_for.len() < thread_count
        invariant
            before.len() <= sem_wait_for.len(),
            sem_wait_for.len() <= thread_count || sem_wait_for.len() == before.len(),
            forall|i: int|
                0 <= i < sem_wait_for.len() ==> #[trigger] sem_wait_for@[i] == waits_on(before, i),
        decreases thread_count - sem_wait_for.len(),
    {
        sem_wait_for.push(None);
    }
    assert(sem_wait_for@ =~= padded_wait(before, thread_count as int));
}

/// Records that thread `i` has taken one more unit of semaphore `j`.
pub(crate) fn record_taken(sem_alloc: &mut Vec<Vec<isize>>, i: usize, j: usize)
    requires
        i < old(sem_alloc).len(),
        j < old(sem_alloc)@[i as int].len(),
        old(sem_alloc)@[i as int]@[j as int] < isize::MAX,
    ensures
        alloc_view(final(sem_alloc)@) == adjusted(
            alloc_view(old(sem_alloc)@),
            i as int,
            j as int,
            1,
        ),
{
    let ghost before = alloc_view(sem_alloc@);
    let units: isize = sem_alloc[i][j];
    sem_alloc[i][j] = units + 1;
    assert(alloc_view(sem_alloc@) =~= adjusted(before, i as int, j as int, 1));
}

/// Records that thread `i` has given back one unit of semaphore `j`.
pub(crate) fn record_returned(sem_alloc: &mut Vec<Vec<isize>>, i: usize, j: usize)
    requires
        i < old(sem_alloc).len(),
        j < old(sem_alloc)@[i as int].len(),
        old(sem_alloc)@[i as int]@[j as int] > 0,
    ensures
        alloc_view(final(sem_alloc)@) == adjusted(
            alloc_view(old(sem_alloc)@),
            i as int,
            j as int,
            -1,
        ),
{
    let ghost before = alloc_view(sem_alloc@);
    let units: isize = sem_alloc[i][j];
    sem_alloc[i][j] = units - 1;
    assert(alloc_view(sem_alloc@) =~= adjusted(before, i as int, j as int, -1));
}

/// A larger table says the same of every thread.
pub proof fn lemma_padded_wf(alloc: Seq<Seq<isize>>, thread_count: int, sem_count: int)
    requires
        alloc_wf(alloc),
    ensures
        alloc_wf(padded_alloc(alloc, thread_count, sem_count)),
        forall|i: int, j: int|
            held(padded_alloc(alloc, thread_count, sem_count), i, j) == held(alloc, i, j),
{
    let next = padded_alloc(alloc, thread_count, sem_count);
    assert forall|i: int, j: int| 0 <= i < next.len() && 0 <= j < next[i].len() implies (
    #[trigger] next[i][j]) >= 0 by {
        if i < alloc.len() && j < alloc[i].len() {
            assert(alloc[i][j] >= 0);
        }
    }
}

/// Taking a unit, or giving back one that is held, leaves no negative number.
pub proof fn lemma_adjusted_wf(alloc: Seq<Seq<isize>>, i: int, j: int, delta: int)
    requires
        alloc_wf(alloc),
        0 <= i < alloc.len(),
        0 <= j < alloc[i].len(),
        0 <= alloc[i][j] + delta <= isize::MAX,
    ensures
        alloc_wf(adjusted(alloc, i, j, delta)),
{
    let next = adjusted(alloc, i, j, delta);
    assert forall|a: int, b: int| 0 <= a < next.len() && 0 <= b < next[a].len() implies (
    #[trigger] next[a][b]) >= 0 by {
        assert(alloc[a][b] >= 0);
    }
}

/// The threads in `stuck` are deadlocked: each of them waits for a semaphore that does not exist,
/// or of which no unit is free and every unit that is held is held by one of them.
pub open spec fn deadlocked(
    alloc: Seq<Seq<isize>>,
    wait_for: Seq<Option<usize>>,
    avail: Seq<isize>,
    stuck: Set<int>,
) -> bool {
    forall|i: int| #[trigger]
        stuck.contains(i) ==> {
            &&& 0 <= i < alloc.len()
            &&& waits_on(wait_for, i) matches Some(s)
            &&& s < avail.len() ==> avail[s as int] <= 0 && forall|t: int|
                #![trigger stuck.contains(t)]
                0 <= t < alloc.len() && !stuck.contains(t) ==> held(alloc, t, s as int) == 0
        }
}

/// Some threads are deadlocked, and one of them keeps a unit from the others.
pub open spec fn has_deadlock(
    alloc: Seq<Seq<isize>>,
    wait_for: Seq<Option<usize>>,
    avail: Seq<isize>,
) -> bool {
    exists|stuck: Set<int>, i: int| #[trigger]
        deadlocked(alloc, wait_for, avail, stuck) && stuck.contains(i) && #[trigger] holds_any(
            alloc,
            i,
        )
}

/// Threads that hold nothing release nothing.
proof fn lemma_released_nothing(alloc: Seq<Seq<isize>>, order: Seq<int>, j: int)
    requires
        forall|k: int| 0 <= k < order.len() ==> held(alloc, #[trigger] order[k], j) == 0,
    ensures
        released(alloc, order, j) == 0,
    decreases order.len(),
{
    if order.len() > 0 {
        assert(held(alloc, order[order.len() - 1], j) == 0);
        let head = order.drop_last();
        assert forall|k: int| 0 <= k < head.len() implies held(alloc, #[trigger] head[k], j)
            == 0 by {
            assert(head[k] == order[k]);
        }
        lemma_released_nothing(alloc, head, j);
    }
}

/// What a list releases is at least what any one of its threads holds.
proof fn lemma_released_member(alloc: Seq<Seq<isize>>, order: Seq<int>, at: int, j: int)
    requires
        alloc_wf(alloc),
        0 <= at < order.len(),
    ensures
        released(alloc, order, j) >= held(alloc, order[at], j),
{
    lemma_released_remove(alloc, order, at, j);
    lemma_released_bounds(alloc, order.remove(at), j);
}

/// No deadlocked thread ever completes.
proof fn lemma_stuck_never_complete(
    alloc: Seq<Seq<isize>>,
    wait_for: Seq<Option<usize>>,
    avail: Seq<isize>,
    stuck: Set<int>,
    order: Seq<int>,
    upto: int,
)
    requires
        deadlocked(alloc, wait_for, avail, stuck),
        completion_order(alloc, wait_for, avail, order),
        0 <= upto <= order.len(),
    ensures
        forall|k: int| 0 <= k < upto ==> !stuck.contains(#[trigger] order[k]),
    decreases upto,
{
    if upto > 0 {
        lemma_stuck_never_complete(alloc, wait_for, avail, stuck, order, upto - 1);
        let k = upto - 1;
        let i = order[k];
        if stuck.contains(i) {
            let s = waits_on(wait_for, i)->0;
            let before = order.take(k);
            assert(can_complete(alloc, wait_for, avail, before, order[k]));
            assert forall|m: int| 0 <= m < before.len() implies held(
                alloc,
                #[trigger] before[m],
                s as int,
            ) == 0 by {
                assert(before[m] == order[m]);
                assert(!stuck.contains(order[m]));
            }
            lemma_released_nothing(alloc, before, s as int);
        }
    }
}

/// Every completion order can be extended to one that nothing can be added to.
proof fn lemma_extend_order(
    alloc: Seq<Seq<isize>>,
    wait_for: Seq<Option<usize>>,
    avail: Seq<isize>,
    order: Seq<int>,
) -> (full: Seq<int>)
    requires
        completion_order(alloc, wait_for, avail, order),
    ensures
        completion_order(alloc, wait_for, avail, full),
        forall|i: int|
            0 <= i < alloc.len() && !full.contains(i) ==> !#[trigger] can_complete(
                alloc,
                wait_for,
                avail,
                full,
                i,
            ),
    decreases alloc.len() - order.len(),
{
    if exists|i: int|
        0 <= i < alloc.len() && !order.contains(i) && #[trigger] can_complete(
            alloc,
            wait_for,
            avail,
            order,
            i,
        ) {
        let i = choose|i: int|
            0 <= i < alloc.len() && !order.contains(i) && #[trigger] can_complete(
                alloc,
                wait_for,
                avail,
                order,
                i,
            );
        lemma_order_push(alloc, wait_for, avail, order, i);
        lemma_distinct_below(order.push(i), alloc.len() as int);
        lemma_extend_order(alloc, wait_for, avail, order.push(i))
    } else {
        order
    }
}

/// Being unsafe is being deadlocked: a state is safe if and only if there is no deadlock that
/// keeps a unit from being given back.
pub proof fn law_safe_iff_no_deadlock(
    alloc: Seq<Seq<isize>>,
    wait_for: Seq<Option<usize>>,
    avail: Seq<isize>,
)
    requires
        alloc_wf(alloc),
        forall|j: int| 0 <= j < avail.len() ==> #[trigger] avail[j] >= 0,
    ensures
        safe_state(alloc, wait_for, avail) <==> !has_deadlock(alloc, wait_for, avail),
{
    if has_deadlock(alloc, wait_for, avail) {
        let (stuck, i) = choose|stuck: Set<int>, i: int| #[trigger]
            deadlocked(alloc, wait_for, avail, stuck) && stuck.contains(i) && #[trigger] holds_any(
                alloc,
                i,
            );
        assert forall|order: Seq<int>| #[trigger]
            completion_order(alloc, wait_for, avail, order) implies !order.contains(i) by {
            lemma_stuck_never_complete(
                alloc,
                wait_for,
                avail,
                stuck,
                order,
                order.len() as int,
            );
        }
    }
    if !safe_state(alloc, wait_for, avail) {
        let none: Seq<int> = Seq::empty();
        assert(completion_order(alloc, wait_for, avail, none));
        let full = lemma_extend_order(alloc, wait_for, avail, none);
        let stuck = Set::new(|i: int| 0 <= i < alloc.len() && !full.contains(i));
        assert(deadlocked(alloc, wait_for, avail, stuck)) by {
            assert forall|i: int| #[trigger] stuck.contains(i) implies ({
                &&& 0 <= i < alloc.len()
                &&& waits_on(wait_for, i) matches Some(s)
                &&& s < avail.len() ==> avail[s as int] <= 0 && forall|t: int|
                    #![trigger stuck.contains(t)]
                    0 <= t < alloc.len() && !stuck.contains(t) ==> held(alloc, t, s as int) == 0
            }) by {
                assert(!can_complete(alloc, wait_for, avail, full, i));
                let s = waits_on(wait_for, i)->0;
                if s < avail.len() {
                    lemma_released_bounds(alloc, full, s as int);
                    assert forall|t: int|
                        #![trigger stuck.contains(t)]
                        0 <= t < alloc.len() && !stuck.contains(t) implies held(
                        alloc,
                        t,
                        s as int,
                    ) == 0 by {
                        assert(full.contains(t));
                        lemma_released_member(alloc, full, full.index_of(t), s as int);
                        if 0 <= s < alloc[t].len() {
                            assert(alloc[t][s as int] >= 0);
                        }
                    }
                }
            }
        }
        let i = choose|i: int|
            0 <= i < alloc.len() && #[trigger] holds_any(alloc, i) && !full.contains(i);
        assert(stuck.contains(i));
    }
}

/// A state stays safe when more units become free.
pub proof fn law_more_units_stay_safe(
    alloc: Seq<Seq<isize>>,
    wait_for: Seq<Option<usize>>,
    avail: Seq<isize>,
    more: Seq<isize>,
)
    requires
        safe_state(alloc, wait_for, avail),
        more.len() == avail.len(),
        forall|j: int| 0 <= j < avail.len() ==> avail[j] <= #[trigger] more[j],
    ensures
        safe_state(alloc, wait_for, more),
{
    let order = choose|order: Seq<int>|
        #[trigger] completion_order(alloc, wait_for, avail, order) && forall|i: int|
            0 <= i < alloc.len() && #[trigger] holds_any(alloc, i) ==> order.contains(i);
    assert(completion_order(alloc, wait_for, more, order)) by {
        assert forall|k: int| 0 <= k < order.len() implies can_complete(
            alloc,
            wait_for,
            more,
            order.take(k),
            #[trigger] order[k],
        ) by {
            assert(can_complete(alloc, wait_for, avail, order.take(k), order[k]));
            if let Some(s) = waits_on(wait_for, order[k]) {
                assert(avail[s as int] <= more[s as int]);
            }
        }
    }
}

/// Where no thread waits, nothing can be wrong.
pub proof fn law_nobody_waiting_is_safe(
    alloc: Seq<Seq<isize>>,
    wait_for: Seq<Option<usize>>,
    avail: Seq<isize>,
)
    requires
        forall|i: int| 0 <= i < alloc.len() ==> #[trigger] waits_on(wait_for, i) is None,
    ensures
        safe_state(alloc, wait_for, avail),
{
    let order = Seq::new(alloc.len(), |i: int| i);
    assert(completion_order(alloc, wait_for, avail, order));
    assert forall|i: int| 0 <= i < alloc.len() && #[trigger] holds_any(
        alloc,
        i,
    ) implies order.contains(i) by {
        assert(order[i] == i);
    }
}

/// Taking a free unit cannot bring about a deadlock: where thread `tid` waits for nothing and takes
/// a unit of semaphore `sem` that is free, a safe state stays safe.
pub proof fn law_taking_a_free_unit_is_safe(
    alloc: Seq<Seq<isize>>,
    wait_for: Seq<Option<usize>>,
    avail: Seq<isize>,
    tid: int,
    sem: usize,
)
    requires
        alloc_wf(alloc),
        forall|j: int| 0 <= j < avail.len() ==> #[trigger] avail[j] >= 0,
        safe_state(alloc, wait_for, avail),
        0 <= tid < alloc.len(),
        sem < avail.len(),
        sem < alloc[tid].len(),
        alloc[tid][sem as int] < isize::MAX,
        waits_on(wait_for, tid) is None,
        avail[sem as int] > 0,
    ensures
        safe_state(
            adjusted(alloc, tid, sem as int, 1),
            wait_for,
            avail.update(sem as int, (avail[sem as int] - 1) as isize),
        ),
{
    let next = adjusted(alloc, tid, sem as int, 1);
    let left = avail.update(sem as int, (avail[sem as int] - 1) as isize);
    assert(alloc[tid][sem as int] >= 0);
    lemma_adjusted_wf(alloc, tid, sem as int, 1);
    law_safe_iff_no_deadlock(alloc, wait_for, avail);
    law_safe_iff_no_deadlock(next, wait_for, left);
    if has_deadlock(next, wait_for, left) {
        let (stuck, i) = choose|stuck: Set<int>, i: int| #[trigger]
            deadlocked(next, wait_for, left, stuck) && stuck.contains(i) && #[trigger] holds_any(
                next,
                i,
            );
        assert(!stuck.contains(tid));
        assert(held(next, tid, sem as int) > 0);
        assert forall|k: int| #[trigger] stuck.contains(k) implies waits_on(wait_for, k)
            != Some(sem) by {}
        lemma_same_deadlock(next, alloc, wait_for, left, avail, stuck, tid, sem);
        assert(next[i] == alloc[i]);
        assert(holds_any(alloc, i));
    }
}

/// Giving back a unit cannot bring about a deadlock: where thread `tid` waits for nothing and
/// gives back a unit of semaphore `sem`, which is free from then on, a safe state stays safe.
pub proof fn law_giving_back_is_safe(
    alloc: Seq<Seq<isize>>,
    wait_for: Seq<Option<usize>>,
    avail: Seq<isize>,
    tid: int,
    sem: usize,
)
    requires
        alloc_wf(alloc),
        forall|j: int| 0 <= j < avail.len() ==> #[trigger] avail[j] >= 0,
        safe_state(alloc, wait_for, avail),
        0 <= tid < alloc.len(),
        sem < avail.len(),
        sem < alloc[tid].len(),
        alloc[tid][sem as int] > 0,
        waits_on(wait_for, tid) is None,
        avail[sem as int] < isize::MAX,
    ensures
        safe_state(
            adjusted(alloc, tid, sem as int, -1),
            wait_for,
            avail.update(sem as int, (avail[sem as int] + 1) as isize),
        ),
{
    let next = adjusted(alloc, tid, sem as int, -1);
    let left = avail.update(sem as int, (avail[sem as int] + 1) as isize);
    lemma_adjusted_wf(alloc, tid, sem as int, -1);
    law_safe_iff_no_deadlock(alloc, wait_for, avail);
    law_safe_iff_no_deadlock(next, wait_for, left);
    if has_deadlock(next, wait_for, left) {
        let (stuck, i) = choose|stuck: Set<int>, i: int| #[trigger]
            deadlocked(next, wait_for, left, stuck) && stuck.contains(i) && #[trigger] holds_any(
                next,
                i,
            );
        assert(!stuck.contains(tid));
        assert forall|k: int| #[trigger] stuck.contains(k) implies waits_on(wait_for, k)
            != Some(sem) by {}
        lemma_same_deadlock(next, alloc, wait_for, left, avail, stuck, tid, sem);
        assert(next[i] == alloc[i]);
        assert(holds_any(alloc, i));
    }
}

/// A deadlock that has nothing to do with semaphore `sem` is there whatever thread `tid` outside
/// of it holds of that semaphore, and however many of its units are free.
proof fn lemma_same_deadlock(
    alloc: Seq<Seq<isize>>,
    other: Seq<Seq<isize>>,
    wait_for: Seq<Option<usize>>,
    avail: Seq<isize>,
    other_avail: Seq<isize>,
    stuck: Set<int>,
    tid: int,
    sem: usize,
)
    requires
        deadlocked(alloc, wait_for, avail, stuck),
        !stuck.contains(tid),
        forall|k: int| #[trigger]
            stuck.contains(k) ==> waits_on(wait_for, k) != Some(sem),
        sem < avail.len(),
        other.len() == alloc.len(),
        other_avail.len() == avail.len(),
        forall|j: int| 0 <= j < avail.len() && j != sem ==> other_avail[j] == avail[j],
        forall|i: int, j: int|
            (i != tid || j != sem) ==> held(other, i, j) == #[trigger] held(alloc, i, j),
    ensures
        deadlocked(other, wait_for, other_avail, stuck),
{
    assert forall|i: int| #[trigger] stuck.contains(i) implies ({
        &&& 0 <= i < other.len()
        &&& waits_on(wait_for, i) matches Some(s)
        &&& s < other_avail.len() ==> other_avail[s as int] <= 0 && forall|t: int|
            #![trigger stuck.contains(t)]
            0 <= t < other.len() && !stuck.contains(t) ==> held(other, t, s as int) == 0
    }) by {
        let s = waits_on(wait_for, i)->0;
        assert(s != sem);
        if s < other_avail.len() {
            assert forall|t: int|
                #![trigger stuck.contains(t)]
                0 <= t < other.len() && !stuck.contains(t) implies held(
                other,
                t,
                s as int,
            ) == 0 by {
                assert(held(alloc, t, s as int) == 0);
            }
        }
    }
}

/// The units of semaphore `s` that the first `n` threads hold, those in `stuck` left out.
pub open spec fn units_outside(
    sem_alloc: Seq<Vec<isize>>,
    stuck: Set<int>,
    s: int,
    n: int,
) -> int
    decreases n,
{
    if n <= 0 {
        0
    } else {
        units_outside(sem_alloc, stuck, s, n - 1) + if stuck.contains(n - 1) || s
            >= sem_alloc[n - 1]@.len() {
            0
        } else {
            sem_alloc[n - 1]@[s] as int
        }
    }
}

/// The threads in `stuck` can never go on: each of them waits for a semaphore that does not exist,
/// or of which there would be no free unit even if all the other threads gave back theirs.
pub open spec fn starved(
    sem_alloc: Seq<Vec<isize>>,
    wait_for: Seq<Option<usize>>,
    avail: Seq<isize>,
    stuck: Set<int>,
) -> bool {
    forall|i: int| #[trigger]
        stuck.contains(i) ==> {
            &&& 0 <= i < sem_alloc.len()
            &&& i < wait_for.len()
            &&& wait_for[i] matches Some(s)
            &&& s < avail.len() ==> avail[s as int] + units_outside(
                sem_alloc,
                stuck,
                s as int,
                sem_alloc.len() as int,
            ) <= 0
        }
}

/// Some threads can never go on, and one of them holds a unit.
pub open spec fn unit_is_lost(
    sem_alloc: Seq<Vec<isize>>,
    wait_for: Seq<Option<usize>>,
    avail: Seq<isize>,
) -> bool {
    exists|stuck: Set<int>, i: int, j: int|
        #![trigger starved(sem_alloc, wait_for, avail, stuck), sem_alloc[i]@[j]]
        starved(sem_alloc, wait_for, avail, stuck) && stuck.contains(i) && 0 <= j
            < sem_alloc[i]@.len() && sem_alloc[i]@[j] > 0
}

/// The threads below `n` that are not in `stuck`, in order.
spec fn outsiders(stuck: Set<int>, n: int) -> Seq<int>
    decreases n,
{
    if n <= 0 {
        Seq::empty()
    } else if stuck.contains(n - 1) {
        outsiders(stuck, n - 1)
    } else {
        outsiders(stuck, n - 1).push(n - 1)
    }
}

proof fn lemma_outsiders(sem_alloc: Seq<Vec<isize>>, stuck: Set<int>, s: int, n: int)
    requires
        0 <= n <= sem_alloc.len(),
        0 <= s,
    ensures
        outsiders(stuck, n).no_duplicates(),
        forall|t: int| #[trigger]
            outsiders(stuck, n).contains(t) <==> 0 <= t < n && !stuck.contains(t),
        released(alloc_view(sem_alloc), outsiders(stuck, n), s) == units_outside(
            sem_alloc,
            stuck,
            s,
            n,
        ),
    decreases n,
{
    if n > 0 {
        let head = outsiders(stuck, n - 1);
        lemma_outsiders(sem_alloc, stuck, s, n - 1);
        if !stuck.contains(n - 1) {
            lemma_released_push(alloc_view(sem_alloc), head, n - 1, s);
            assert(!head.contains(n - 1));
            let next = head.push(n - 1);
            assert forall|a: int, b: int|
                0 <= a < next.len() && 0 <= b < next.len() && a != b implies next[a] != next[b] by {
                if a < head.len() {
                    assert(head.contains(head[a]));
                }
                if b < head.len() {
                    assert(head.contains(head[b]));
                }
            }
            assert forall|t: int| #[trigger] next.contains(t) <==> 0 <= t < n && !stuck.contains(
                t,
            ) by {
                if head.contains(t) {
                    assert(next[head.index_of(t)] == t);
                }
                assert(next[head.len() as int] == n - 1);
            }
        }
    }
}

/// No starved thread ever completes.
proof fn lemma_starved_never_complete(
    sem_alloc: Seq<Vec<isize>>,
    wait_for: Seq<Option<usize>>,
    avail: Seq<isize>,
    stuck: Set<int>,
    order: Seq<int>,
    upto: int,
)
    requires
        alloc_wf(alloc_view(sem_alloc)),
        starved(sem_alloc, wait_for, avail, stuck),
        completion_order(alloc_view(sem_alloc), wait_for, avail, order),
        0 <= upto <= order.len(),
    ensures
        forall|k: int| 0 <= k < upto ==> !stuck.contains(#[trigger] order[k]),
    decreases upto,
{
    let alloc = alloc_view(sem_alloc);
    if upto > 0 {
        lemma_starved_never_complete(sem_alloc, wait_for, avail, stuck, order, upto - 1);
        let k = upto - 1;
        let i = order[k];
        if stuck.contains(i) {
            let s = wait_for[i]->0;
            let before = order.take(k);
            let others = outsiders(stuck, sem_alloc.len() as int);
            assert(can_complete(alloc, wait_for, avail, before, order[k]));
            lemma_outsiders(sem_alloc, stuck, s as int, sem_alloc.len() as int);
            assert(before.no_duplicates());
            assert forall|m: int| 0 <= m < before.len() implies others.contains(
                #[trigger] before[m],
            ) by {
                assert(before[m] == order[m]);
                assert(!stuck.contains(order[m]));
            }
            lemma_released_subset(alloc, before, others, s as int);
        }
    }
}

/// Being unsafe is losing a unit for ever: whatever is free, a state is safe if and only if there
/// are no threads, one of them with a unit, each of which waits for something that all the others
/// together could not give it.
pub proof fn law_unsafe_iff_a_unit_is_lost(
    sem_alloc: Seq<Vec<isize>>,
    wait_for: Seq<Option<usize>>,
    avail: Seq<isize>,
)
    requires
        forall|i: int, j: int|
            0 <= i < sem_alloc.len() && 0 <= j < sem_alloc[i]@.len()
                ==> #[trigger] sem_alloc[i]@[j] >= 0,
    ensures
        safe_state(alloc_view(sem_alloc), wait_for, avail) <==> !unit_is_lost(
            sem_alloc,
            wait_for,
            avail,
        ),
{
    let alloc = alloc_view(sem_alloc);
    assert(alloc_wf(alloc)) by {
        assert forall|i: int, j: int| 0 <= i < alloc.len() && 0 <= j < alloc[i].len() implies (
        #[trigger] alloc[i][j]) >= 0 by {
            assert(sem_alloc[i]@[j] >= 0);
        }
    }
    if unit_is_lost(sem_alloc, wait_for, avail) {
        let (stuck, i, j) = choose|stuck: Set<int>, i: int, j: int|
            #![trigger starved(sem_alloc, wait_for, avail, stuck), sem_alloc[i]@[j]]
            starved(sem_alloc, wait_for, avail, stuck) && stuck.contains(i) && 0 <= j
                < sem_alloc[i]@.len() && sem_alloc[i]@[j] > 0;
        assert(alloc[i][j] > 0);
        assert(holds_any(alloc, i));
        assert forall|order: Seq<int>| #[trigger]
            completion_order(alloc, wait_for, avail, order) implies !order.contains(i) by {
            lemma_starved_never_complete(
                sem_alloc,
                wait_for,
                avail,
                stuck,
                order,
                order.len() as int,
            );
        }
    }
    if !safe_state(alloc, wait_for, avail) {
        let none: Seq<int> = Seq::empty();
        assert(completion_order(alloc, wait_for, avail, none));
        let full = lemma_extend_order(alloc, wait_for, avail, none);
        let stuck = Set::new(|i: int| 0 <= i < alloc.len() && !full.contains(i));
        assert(starved(sem_alloc, wait_for, avail, stuck)) by {
            assert forall|i: int| #[trigger] stuck.contains(i) implies ({
                &&& 0 <= i < sem_alloc.len()
                &&& i < wait_for.len()
                &&& wait_for[i] matches Some(s)
                &&& s < avail.len() ==> avail[s as int] + units_outside(
                    sem_alloc,
                    stuck,
                    s as int,
                    sem_alloc.len() as int,
                ) <= 0
            }) by {
                assert(!can_complete(alloc, wait_for, avail, full, i));
                let s = waits_on(wait_for, i)->0;
                let others = outsiders(stuck, sem_alloc.len() as int);
                lemma_outsiders(sem_alloc, stuck, s as int, sem_alloc.len() as int);
                assert forall|m: int| 0 <= m < others.len() implies full.contains(
                    #[trigger] others[m],
                ) by {
                    assert(others.contains(others[m]));
                }
                lemma_released_subset(alloc, others, full, s as int);
            }
        }
        let i = choose|i: int|
            0 <= i < alloc.len() && #[trigger] holds_any(alloc, i) && !full.contains(i);
        assert(stuck.contains(i));
        let j = choose|j: int| 0 <= j < alloc[i].len() && #[trigger] alloc[i][j] > 0;
        assert(sem_alloc[i]@[j] > 0);
    }
}

/// What a table says of semaphore `j` and thread `i`; nothing where it has no such entry.
pub open spec fn entry(sem_alloc: Seq<Vec<isize>>, i: int, j: int) -> int {
    if 0 <= i < sem_alloc.len() && 0 <= j < sem_alloc[i]@.len() {
        sem_alloc[i]@[j] as int
    } else {
        0
    }
}

/// Making the tables larger adds rows until there is one for each thread and entries until each
/// row has one for each semaphore, no more, and changes no entry: what is added is zero.
pub proof fn law_larger_table_says_the_same(
    before: Seq<Vec<isize>>,
    after: Seq<Vec<isize>>,
    thread_count: int,
    sem_count: int,
)
    requires
        0 <= thread_count,
        0 <= sem_count,
        alloc_view(after) == padded_alloc(alloc_view(before), thread_count, sem_count),
    ensures
        after.len() >= before.len(),
        after.len() >= thread_count,
        after.len() == before.len() || after.len() == thread_count,
        forall|i: int| 0 <= i < after.len() ==> (#[trigger] after[i])@.len() >= sem_count,
        forall|i: int|
            0 <= i < before.len() ==> (#[trigger] after[i])@.len() == before[i]@.len()
                || before[i]@.len() < after[i]@.len() == sem_count,
        forall|i: int|
            before.len() <= i < after.len() ==> (#[trigger] after[i])@.len() == sem_count,
        forall|i: int, j: int| #[trigger] entry(after, i, j) == entry(before, i, j),
{
    let old_rows = alloc_view(before);
    let rows = alloc_view(after);
    assert(after.len() == rows.len());
    assert forall|i: int| 0 <= i < after.len() implies (#[trigger] after[i])@ == padded_row(
        if i < before.len() {
            before[i]@
        } else {
            Seq::empty()
        },
        sem_count,
    ) by {
        assert(rows[i] == after[i]@);
        if i < before.len() {
            assert(old_rows[i] == before[i]@);
        }
    }
}

/// The wait table with an entry for each thread says the same of every thread, and nothing of those
/// that were added.
pub proof fn law_larger_wait_table_says_the_same(
    before: Seq<Option<usize>>,
    after: Seq<Option<usize>>,
    thread_count: int,
)
    requires
        0 <= thread_count,
        after == padded_wait(before, thread_count),
    ensures
        after.len() >= before.len(),
        after.len() >= thread_count,
        after.len() == before.len() || after.len() == thread_count,
        forall|i: int| 0 <= i < before.len() ==> #[trigger] after[i] == before[i],
        forall|i: int| before.len() <= i < after.len() ==> #[trigger] after[i] is None,
{
}

/// Recording changes the one entry by `delta` and no other, nor the size of the table.
pub proof fn law_one_entry_changes(
    before: Seq<Vec<isize>>,
    after: Seq<Vec<isize>>,
    i: int,
    j: int,
    delta: int,
)
    requires
        0 <= i < before.len(),
        0 <= j < before[i]@.len(),
        isize::MIN <= before[i]@[j] + delta <= isize::MAX,
        alloc_view(after) == adjusted(alloc_view(before), i, j, delta),
    ensures
        after.len() == before.len(),
        forall|a: int| 0 <= a < before.len() ==> (#[trigger] after[a])@.len() == before[a]@.len(),
        entry(after, i, j) == entry(before, i, j) + delta,
        forall|a: int, b: int|
            a != i || b != j ==> #[trigger] entry(after, a, b) == entry(before, a, b),
{
    let old_rows = alloc_view(before);
    let rows = alloc_view(after);
    assert(after.len() == rows.len());
    assert forall|a: int| 0 <= a < after.len() implies (#[trigger] after[a])@ == if a == i {
        before[a]@.update(j, (before[a]@[j] + delta) as isize)
    } else {
        before[a]@
    } by {
        assert(rows[a] == after[a]@);
        assert(old_rows[a] == before[a]@);
    }
}

} // verus!
