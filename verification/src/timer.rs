//! RISC-V timer-related functionality: reading the clock, and the queue of sleeping tasks.

use crate::config::Config;
use crate::objects::TaskRef;
use std::collections::BTreeMap;
use vstd::laws_cmp::obeys_cmp;
use vstd::prelude::*;
use vstd::std_specs::btree::increasing_seq;
use vstd::std_specs::cmp::OrdSpec;
use vstd::std_specs::iter::IteratorSpec;

verus! {

/// The number of ticks per second
pub const TICKS_PER_SEC: usize = 100;

/// The number of milliseconds per second
pub const MSEC_PER_SEC: usize = 1000;

/// The number of microseconds per second
pub const MICRO_PER_SEC: usize = 1_000_000;

/// Reads the `time` register through `riscv::register::time::try_read`. The reading differs from
/// call to call, so nothing is claimed of it; it is `None` on a machine that has no such register.
#[verifier::external_body]
fn read_time_register() -> (ticks: Option<usize>) {
    riscv::register::time::try_read().ok()
}

/// `ticks` of a clock with `clock_freq` ticks per second, in units of which a second has
/// `per_sec`, rounded down. `None` where the product does not fit a machine word.
pub open spec fn scaled(ticks: usize, per_sec: usize, clock_freq: usize) -> Option<usize> {
    if ticks * per_sec <= usize::MAX {
        Some((ticks * per_sec / clock_freq as int) as usize)
    } else {
        None
    }
}

/// A reading of the clock in milliseconds, if there is one and it fits.
pub open spec fn reading_ms(ticks: Option<usize>, config: Config) -> Option<usize> {
    match ticks {
        Some(t) => scaled(t, MSEC_PER_SEC, config.clock_freq),
        None => None,
    }
}

/// A reading of the clock in microseconds, if there is one and it fits.
pub open spec fn reading_us(ticks: Option<usize>, config: Config) -> Option<usize> {
    match ticks {
        Some(t) => scaled(t, MICRO_PER_SEC, config.clock_freq),
        None => None,
    }
}

/// Scales a number of clock ticks to units of which a second has `per_sec`.
pub fn scale_ticks(ticks: usize, per_sec: usize, clock_freq: usize) -> (units: Option<usize>)
    requires
        clock_freq > 0,
    ensures
        units == scaled(ticks, per_sec, clock_freq),
{
    match ticks.checked_mul(per_sec) {
        Some(product) => {
            let units: usize = product / clock_freq;
            assert(ticks * per_sec / clock_freq as int == units);
            Some(units)
        },
        None => None,
    }
}

/// A reading of the clock has given `ticks`. That is known of a value only once the clock has been
/// read.
pub closed spec fn clock_reads(ticks: Option<usize>) -> bool {
    call_ensures(read_time_register, (), ticks)
}

/// Get the current time in ticks; `None` on a machine without a `time` register.
pub fn get_time() -> (ticks: Option<usize>)
    ensures
        clock_reads(ticks),
{
    read_time_register()
}

/// The time in milliseconds when the clock reads `ticks`.
pub fn time_ms_at(ticks: Option<usize>, config: &Config) -> (ms: Option<usize>)
    requires
        config.wf(),
    ensures
        ms == reading_ms(ticks, *config),
{
    match ticks {
        Some(t) => scale_ticks(t, MSEC_PER_SEC, config.clock_freq),
        None => None,
    }
}

/// The time in microseconds when the clock reads `ticks`.
pub fn time_us_at(ticks: Option<usize>, config: &Config) -> (us: Option<usize>)
    requires
        config.wf(),
    ensures
        us == reading_us(ticks, *config),
{
    match ticks {
        Some(t) => scale_ticks(t, MICRO_PER_SEC, config.clock_freq),
        None => None,
    }
}

/// Get the current time in milliseconds; `None` where there is no reading or it is too large.
/// What the reading is rests on the clock; `time_ms_at` says what comes of it.
pub fn get_time_ms(config: &Config) -> (ms: Option<usize>)
    requires
        config.wf(),
    ensures
        exists|ticks: Option<usize>| #[trigger]
            clock_reads(ticks) && ms == reading_ms(ticks, *config),
{
    time_ms_at(get_time(), config)
}

/// Get the current time in microseconds; `None` where there is no reading or it is too large.
/// What the reading is rests on the clock; `time_us_at` says what comes of it.
pub fn get_time_us(config: &Config) -> (us: Option<usize>)
    requires
        config.wf(),
    ensures
        exists|ticks: Option<usize>| #[trigger]
            clock_reads(ticks) && us == reading_us(ticks, *config),
{
    time_us_at(get_time(), config)
}

/// The time of the next timer interrupt when the clock reads `ticks`, if it fits.
pub open spec fn trigger_after(ticks: Option<usize>, config: Config) -> Option<usize> {
    match ticks {
        Some(t) => if t + config.clock_freq / TICKS_PER_SEC <= usize::MAX {
            Some((t + config.clock_freq / TICKS_PER_SEC) as usize)
        } else {
            None
        },
        None => None,
    }
}

/// The time of the next timer interrupt when the clock reads `ticks`.
pub fn next_trigger(ticks: Option<usize>, config: &Config) -> (deadline: Option<usize>)
    ensures
        deadline == trigger_after(ticks, *config),
{
    match ticks {
        Some(t) => t.checked_add(config.clock_freq / TICKS_PER_SEC),
        None => None,
    }
}

/// Set the next timer interrupt: the time to hand to the machine's timer.
pub fn set_next_trigger(config: &Config) -> (deadline: Option<usize>)
    ensures
        exists|ticks: Option<usize>| #[trigger]
            clock_reads(ticks) && deadline == trigger_after(ticks, *config),
{
    next_trigger(get_time(), config)
}

/// The timer queue: expiry time in milliseconds -> the tasks to wake then, in the order in which
/// they were added.
pub struct TimerQueue {
    pub entries: BTreeMap<usize, Vec<TaskRef>>,
}

impl View for TimerQueue {
    type V = Map<usize, Seq<TaskRef>>;

    open spec fn view(&self) -> Map<usize, Seq<TaskRef>> {
        self.entries@.map_values(|tasks: Vec<TaskRef>| tasks@)
    }
}

/// The tasks to wake at `time`.
pub open spec fn waiting_at(queue: Map<usize, Seq<TaskRef>>, time: int) -> Seq<TaskRef> {
    if 0 <= time <= usize::MAX && queue.contains_key(time as usize) {
        queue[time as usize]
    } else {
        Seq::empty()
    }
}

/// The tasks to wake before `time`, the earliest first.
pub open spec fn due_before(queue: Map<usize, Seq<TaskRef>>, time: nat) -> Seq<TaskRef>
    decreases time,
{
    if time == 0 {
        Seq::empty()
    } else {
        due_before(queue, (time - 1) as nat) + waiting_at(queue, time - 1)
    }
}

/// The tasks whose time has come at `now`, the earliest first.
pub open spec fn due(queue: Map<usize, Seq<TaskRef>>, now: usize) -> Seq<TaskRef> {
    due_before(queue, (now + 1) as nat)
}

/// What stays in the queue when everything due at `now` has left.
pub open spec fn still_waiting(queue: Map<usize, Seq<TaskRef>>, now: usize) -> Map<
    usize,
    Seq<TaskRef>,
> {
    queue.restrict(Set::new(|time: usize| time > now))
}

/// The queue after `task` has been added for `time`.
pub open spec fn with_timer(
    queue: Map<usize, Seq<TaskRef>>,
    time: usize,
    task: TaskRef,
) -> Map<usize, Seq<TaskRef>> {
    queue.insert(time, waiting_at(queue, time as int).push(task))
}

impl TimerQueue {
    /// A queue in which nothing waits.
    pub fn new() -> (queue: Self)
        ensures
            queue@ == Map::<usize, Seq<TaskRef>>::empty(),
    {
        let queue = TimerQueue { entries: BTreeMap::new() };
        assert(queue@ =~= Map::empty());
        queue
    }
}

/// Registers a timer: `task` is to be woken at the time `expire_ms`.
pub fn add_timer(queue: &mut TimerQueue, expire_ms: usize, task: TaskRef)
    ensures
        final(queue)@ == with_timer(old(queue)@, expire_ms, task),
{
    let ghost before = queue@;
    let mut tasks: Vec<TaskRef> = match queue.entries.remove(&expire_ms) {
        Some(tasks) => tasks,
        None => Vec::new(),
    };
    assert(tasks@ == waiting_at(before, expire_ms as int));
    tasks.push(task);
    queue.entries.insert(expire_ms, tasks);
    assert(queue@ =~= with_timer(before, expire_ms, task));
}

/// Keys that a map hands out in increasing order are increasing numbers.
proof fn lemma_increasing()
    ensures
        forall|keys: Seq<&usize>, i: int, j: int|
            #![trigger increasing_seq(keys), keys[i], keys[j]]
            increasing_seq(keys) && 0 <= i < j < keys.len() ==> *keys[i] < *keys[j],
{
    broadcast use vstd::laws_cmp::group_laws_cmp;

    assert forall|keys: Seq<&usize>, i: int, j: int|
        #![trigger increasing_seq(keys), keys[i], keys[j]]
        increasing_seq(keys) && 0 <= i < j < keys.len() implies *keys[i] < *keys[j] by {
        assert(obeys_cmp::<&usize>());
        assert(OrdSpec::cmp_spec(&keys[i], &keys[j]) is Less);
    }
}

/// The times in the queue that are not after `now`, in increasing order.
pub(crate) fn expired_times(queue: &TimerQueue, now: usize) -> (times: Vec<usize>)
    ensures
        forall|i: int, j: int| 0 <= i < j < times.len() ==> times@[i] < times@[j],
        forall|time: usize| #[trigger]
            times@.contains(time) <==> queue@.contains_key(time) && time <= now,
{
    let mut times: Vec<usize> = Vec::new();
    // Where each of `times` stands among the keys.
    let ghost mut places: Seq<int> = Seq::empty();
    for time in keys: queue.entries.keys()
        invariant
            places.len() == times.len(),
            forall|i: int|
                0 <= i < times.len() ==> 0 <= #[trigger] places[i] < keys.index()
                    && *keys.seq()[places[i]] == times@[i] && times@[i] <= now,
            forall|i: int, j: int| 0 <= i < j < places.len() ==> places[i] < places[j],
            forall|k: int|
                0 <= k < keys.index() && *#[trigger] keys.seq()[k] <= now ==> times@.contains(
                    *keys.seq()[k],
                ),
            keys.seq() == queue.entries.keys().remaining(),
    {
        if *time <= now {
            let ghost before = times@;
            times.push(*time);
            proof {
                places = places.push(keys.index() as int);
                assert forall|k: int|
                    0 <= k <= keys.index() && *#[trigger] keys.seq()[k]
                        <= now implies times@.contains(*keys.seq()[k]) by {
                    if k < keys.index() {
                        let at = before.index_of(*keys.seq()[k]);
                        assert(times@[at] == *keys.seq()[k]);
                    } else {
                        assert(times@[before.len() as int] == *keys.seq()[k]);
                    }
                }
            }
        }
    }
    proof {
        lemma_increasing();
        assert forall|i: int, j: int| 0 <= i < j < times.len() implies times@[i] < times@[j] by {
            assert(places[i] < places[j]);
        }
        assert forall|time: usize|
            queue@.contains_key(time) && time <= now implies #[trigger] times@.contains(time) by {
            assert(queue.entries@.dom().contains(time));
            assert(queue.entries.keys().remaining().unref().contains(time));
        }
        assert forall|time: usize| #[trigger] times@.contains(time) implies queue@.contains_key(
            time,
        ) && time <= now by {
            let i = times@.index_of(time);
            assert(queue.entries.keys().remaining().unref()[places[i]] == time);
            assert(queue.entries.keys().remaining().unref().to_set().contains(time));
        }
    }
    times
}

/// Times at which nothing waits add nothing.
proof fn lemma_due_gap(queue: Map<usize, Seq<TaskRef>>, from: nat, to: nat)
    requires
        from <= to,
        forall|time: usize| from <= time < to ==> !#[trigger] queue.contains_key(time),
    ensures
        due_before(queue, to) == due_before(queue, from),
    decreases to,
{
    if from < to {
        lemma_due_gap(queue, from, (to - 1) as nat);
        assert(waiting_at(queue, to - 1) =~= Seq::empty());
        assert(due_before(queue, to) =~= due_before(queue, from));
    }
}

/// Takes everything that is due at `now` out of the queue, the earliest first.
pub fn check_timer_at(queue: &mut TimerQueue, now: usize) -> (woken: Vec<TaskRef>)
    ensures
        woken@ == due(old(queue)@, now),
        final(queue)@ == still_waiting(old(queue)@, now),
{
    let ghost before = queue@;
    let times: Vec<usize> = expired_times(queue, now);
    let mut woken: Vec<TaskRef> = Vec::new();
    let mut i: usize = 0;
    let ghost mut upto: nat = 0;
    while i < times.len()
        invariant
            i <= times.len(),
            forall|a: int, b: int| 0 <= a < b < times.len() ==> times@[a] < times@[b],
            forall|time: usize| #[trigger]
                times@.contains(time) <==> before.contains_key(time) && time <= now,
            upto <= now + 1,
            woken@ == due_before(before, upto),
            forall|k: int| 0 <= k < i ==> #[trigger] times@[k] < upto,
            forall|k: int| i <= k < times.len() ==> upto <= #[trigger] times@[k],
            forall|time: usize| #[trigger]
                queue@.contains_key(time) <==> before.contains_key(time) && time >= upto,
            forall|time: usize| #[trigger]
                queue@.contains_key(time) ==> queue@[time] == before[time],
        decreases times.len() - i,
    {
        let time: usize = times[i];
        assert(times@.contains(time));
        assert(queue@.contains_key(time));
        let ghost waiting = queue@;
        proof {
            assert forall|t: usize| upto <= t < time implies !#[trigger] before.contains_key(t) by {
                if before.contains_key(t) {
                    assert(times@.contains(t));
                    let k = times@.index_of(t);
                    assert(times@[k] == t);
                }
            }
            lemma_due_gap(before, upto, time as nat);
        }
        if let Some(mut tasks) = queue.entries.remove(&time) {
            assert(tasks@ == waiting_at(before, time as int));
            woken.append(&mut tasks);
        }
        proof {
            assert(queue@ =~= waiting.remove(time));
            assert forall|t: usize| #[trigger] queue@.contains_key(t) <==> before.contains_key(t)
                && t >= time + 1 by {
                assert(waiting.contains_key(t) <==> before.contains_key(t) && t >= upto);
            }
            upto = (time + 1) as nat;
        }
        i += 1;
    }
    proof {
        assert forall|t: usize| upto <= t < now + 1 implies !#[trigger] before.contains_key(t) by {
            if before.contains_key(t) {
                assert(times@.contains(t));
                let k = times@.index_of(t);
                assert(times@[k] == t);
            }
        }
        lemma_due_gap(before, upto, (now + 1) as nat);
        assert(queue@ =~= still_waiting(before, now)) by {
            assert forall|t: usize| #[trigger] queue@.contains_key(t) <==> before.contains_key(t)
                && t > now by {
                if before.contains_key(t) && t <= now {
                    assert(times@.contains(t));
                    let k = times@.index_of(t);
                    assert(times@[k] < upto);
                }
            }
        }
    }
    woken
}

/// A reading of the clock and what checking the queue at that time comes to. Without a reading
/// nothing happens and there is no answer.
pub open spec fn timer_checked(
    before: Map<usize, Seq<TaskRef>>,
    after: Map<usize, Seq<TaskRef>>,
    config: Config,
    ticks: Option<usize>,
    woken: Option<Vec<TaskRef>>,
) -> bool {
    match reading_ms(ticks, config) {
        Some(now) => woken is Some && woken->0@ == due(before, now) && after == still_waiting(
            before,
            now,
        ),
        None => woken is None && after == before,
    }
}

/// Takes all timers out of the queue that have expired when the clock reads `ticks`, and returns
/// the tasks to wake, in that order. `None` where there is no reading or it is too large.
pub fn check_timer_on(queue: &mut TimerQueue, config: &Config, ticks: Option<usize>) -> (woken:
    Option<Vec<TaskRef>>)
    requires
        config.wf(),
    ensures
        timer_checked(old(queue)@, final(queue)@, *config, ticks, woken),
{
    match time_ms_at(ticks, config) {
        Some(now) => Some(check_timer_at(queue, now)),
        None => None,
    }
}

/// Takes all expired timers out of the queue and returns the tasks to wake, in that order. To be
/// called on every timer interrupt. `None` where the clock cannot be read. What the reading is
/// rests on the clock; `check_timer_on` says what comes of it.
pub fn check_timer(queue: &mut TimerQueue, config: &Config) -> (woken: Option<Vec<TaskRef>>)
    requires
        config.wf(),
    ensures
        exists|ticks: Option<usize>| #[trigger]
            clock_reads(ticks) && timer_checked(
                old(queue)@,
                final(queue)@,
                *config,
                ticks,
                woken,
            ),
{
    check_timer_on(queue, config, get_time())
}

proof fn lemma_due_split(queue: Map<usize, Seq<TaskRef>>, now: usize, upto: nat)
    ensures
        upto <= now + 1 ==> due_before(still_waiting(queue, now), upto) == Seq::<TaskRef>::empty(),
        upto >= now + 1 ==> due_before(queue, upto) == due(queue, now) + due_before(
            still_waiting(queue, now),
            upto,
        ),
    decreases upto,
{
    let rest = still_waiting(queue, now);
    if upto > 0 {
        lemma_due_split(queue, now, (upto - 1) as nat);
        if upto <= now + 1 {
            assert(waiting_at(rest, upto - 1) =~= Seq::empty());
            assert(due_before(rest, upto) =~= Seq::empty());
        } else {
            assert(waiting_at(rest, upto - 1) == waiting_at(queue, upto - 1));
        }
    }
    if upto >= now + 1 {
        assert(due_before(queue, upto) =~= due(queue, now) + due_before(rest, upto));
    }
}

/// No task is lost, woken twice or woken out of order: checking the queue at `now` and again at
/// `later` wakes what one check at `later` would have woken, in the same order, and leaves the
/// same tasks waiting.
pub proof fn law_checks_compose(queue: Map<usize, Seq<TaskRef>>, now: usize, later: usize)
    requires
        now <= later,
    ensures
        due(queue, later) == due(queue, now) + due(still_waiting(queue, now), later),
        still_waiting(still_waiting(queue, now), later) == still_waiting(queue, later),
{
    lemma_due_split(queue, now, (later + 1) as nat);
    assert(still_waiting(still_waiting(queue, now), later) =~= still_waiting(queue, later));
}

/// Right after a check nothing is due.
pub proof fn law_check_leaves_nothing_due(queue: Map<usize, Seq<TaskRef>>, now: usize)
    ensures
        due(still_waiting(queue, now), now) == Seq::<TaskRef>::empty(),
{
    lemma_due_split(queue, now, (now + 1) as nat);
}

proof fn lemma_timer_due(
    queue: Map<usize, Seq<TaskRef>>,
    time: usize,
    task: TaskRef,
    upto: nat,
)
    ensures
        upto <= time ==> due_before(with_timer(queue, time, task), upto) == due_before(queue, upto),
        upto > time ==> due_before(with_timer(queue, time, task), upto).contains(task)
            && due_before(with_timer(queue, time, task), upto).len() == due_before(
            queue,
            upto,
        ).len() + 1,
    decreases upto,
{
    let next = with_timer(queue, time, task);
    if upto > 0 {
        lemma_timer_due(queue, time, task, (upto - 1) as nat);
        let earlier = due_before(next, (upto - 1) as nat);
        let here = waiting_at(next, upto - 1);
        if upto - 1 == time {
            assert(here.last() == task);
            assert((earlier + here)[earlier.len() + here.len() - 1] == task);
        } else {
            assert(here == waiting_at(queue, upto - 1));
            if upto > time {
                let at = earlier.index_of(task);
                assert((earlier + here)[at] == task);
            }
        }
    }
}

/// A task that sleeps until `time` is woken by the first check that is not before `time`, and by
/// no earlier one: an earlier check wakes the same tasks as without it and leaves it waiting.
pub proof fn law_timer_fires_on_time(
    queue: Map<usize, Seq<TaskRef>>,
    time: usize,
    task: TaskRef,
    now: usize,
)
    ensures
        now < time ==> due(with_timer(queue, time, task), now) == due(queue, now) && still_waiting(
            with_timer(queue, time, task),
            now,
        ) == with_timer(still_waiting(queue, now), time, task),
        now >= time ==> due(with_timer(queue, time, task), now).contains(task) && due(
            with_timer(queue, time, task),
            now,
        ).len() == due(queue, now).len() + 1 && still_waiting(with_timer(queue, time, task), now)
            == still_waiting(queue, now),
{
    lemma_timer_due(queue, time, task, (now + 1) as nat);
    let next = still_waiting(with_timer(queue, time, task), now);
    if now < time {
        assert(next =~= with_timer(still_waiting(queue, now), time, task));
    } else {
        assert(next =~= still_waiting(queue, now));
    }
}

/// Time does not run backwards in milliseconds or microseconds where it does not in ticks.
pub proof fn law_scaling_is_monotone(early: usize, late: usize, per_sec: usize, clock_freq: usize)
    requires
        clock_freq > 0,
        early <= late,
        scaled(late, per_sec, clock_freq) is Some,
    ensures
        scaled(early, per_sec, clock_freq) is Some,
        scaled(early, per_sec, clock_freq)->0 <= scaled(late, per_sec, clock_freq)->0,
{
    assert(early * per_sec <= late * per_sec) by (nonlinear_arith)
        requires
            early <= late,
    ;
    vstd::arithmetic::div_mod::lemma_div_is_ordered(
        early * per_sec,
        late * per_sec,
        clock_freq as int,
    );
    vstd::arithmetic::div_mod::lemma_div_is_ordered_by_denominator(
        late * per_sec,
        1,
        clock_freq as int,
    );
    vstd::arithmetic::div_mod::lemma_div_pos_is_pos(early * per_sec, clock_freq as int);
}

/// A number that is a quotient rounded down is that quotient.
pub proof fn lemma_quotient_is_unique(product: int, clock_freq: int, units: int)
    requires
        clock_freq > 0,
        units * clock_freq <= product < (units + 1) * clock_freq,
    ensures
        product / clock_freq == units,
{
    assert((units + 1) * clock_freq == units * clock_freq + clock_freq) by (nonlinear_arith);
    vstd::arithmetic::div_mod::lemma_fundamental_div_mod_converse(
        product,
        clock_freq,
        units,
        product - units * clock_freq,
    );
}

/// Scaling rounds down to the unit, and fails only where the product does not fit a word: the
/// result times the clock's frequency is at most the ticks times the units of a second, and one
/// unit more would be too many.
pub proof fn law_scaling_is_exact(ticks: usize, per_sec: usize, clock_freq: usize)
    requires
        clock_freq > 0,
    ensures
        scaled(ticks, per_sec, clock_freq) is Some <==> ticks * per_sec <= usize::MAX,
        scaled(ticks, per_sec, clock_freq) matches Some(units) ==> units * clock_freq <= ticks
            * per_sec < (units + 1) * clock_freq,
{
    let product = ticks * per_sec;
    assert(product >= 0) by (nonlinear_arith)
        requires
            product == ticks * per_sec,
    ;
    if product <= usize::MAX {
        let units = product / clock_freq as int;
        vstd::arithmetic::div_mod::lemma_fundamental_div_mod(product, clock_freq as int);
        vstd::arithmetic::div_mod::lemma_div_pos_is_pos(product, clock_freq as int);
        vstd::arithmetic::div_mod::lemma_div_is_ordered_by_denominator(
            product,
            1,
            clock_freq as int,
        );
        assert(clock_freq as int * units == units * clock_freq) by (nonlinear_arith);
        assert((units + 1) * clock_freq == units * clock_freq + clock_freq) by (nonlinear_arith);
    }
}

/// A second has a thousand milliseconds and a million microseconds: a reading in either unit is
/// the ticks divided by the clock's frequency, times that number, rounded down. There is none
/// where the clock has none or the product does not fit a word.
pub proof fn law_readings_have_their_units(ticks: Option<usize>, config: Config)
    requires
        config.clock_freq > 0,
    ensures
        ticks is None ==> reading_ms(ticks, config) is None && reading_us(ticks, config) is None,
        ticks matches Some(t) ==> {
            &&& reading_ms(ticks, config) is Some <==> t * 1000 <= usize::MAX
            &&& reading_ms(ticks, config) matches Some(ms) ==> ms * config.clock_freq <= t * 1000
                < (ms + 1) * config.clock_freq
            &&& reading_us(ticks, config) is Some <==> t * 1_000_000 <= usize::MAX
            &&& reading_us(ticks, config) matches Some(us) ==> us * config.clock_freq <= t
                * 1_000_000 < (us + 1) * config.clock_freq
        },
{
    if let Some(t) = ticks {
        law_scaling_is_exact(t, 1000, config.clock_freq);
        law_scaling_is_exact(t, 1_000_000, config.clock_freq);
    }
}

/// The timer is set to go off after a hundredth of a second's worth of ticks, rounded down,
/// counted from the reading.
pub proof fn law_trigger_is_a_hundredth_ahead(ticks: Option<usize>, config: Config)
    ensures
        ticks is None ==> trigger_after(ticks, config) is None,
        ticks matches Some(t) ==> match trigger_after(ticks, config) {
            Some(deadline) => (deadline - t) * 100 <= config.clock_freq < (deadline - t + 1) * 100,
            None => (usize::MAX - t) * 100 + 100 <= config.clock_freq,
        },
{
}

/// A task that is added for a time is the last of those that wait for that time, and nobody else's
/// place or time changes.
pub proof fn law_timer_is_added_last(
    queue: Map<usize, Seq<TaskRef>>,
    time: usize,
    task: TaskRef,
)
    ensures
        ({
            let next = with_timer(queue, time, task);
            &&& next.contains_key(time)
            &&& next[time].last() == task
            &&& next[time].drop_last() == if queue.contains_key(time) {
                queue[time]
            } else {
                Seq::empty()
            }
            &&& forall|other: usize|
                other != time ==> (#[trigger] next.contains_key(other) <==> queue.contains_key(
                    other,
                ))
            &&& forall|other: usize|
                other != time && queue.contains_key(other) ==> #[trigger] next[other]
                    == queue[other]
        }),
{
    let waiting = if queue.contains_key(time) {
        queue[time]
    } else {
        Seq::empty()
    };
    assert(waiting.push(task).drop_last() =~= waiting);
}

/// What goes on waiting after a check is exactly what is due later, unchanged.
pub proof fn law_later_timers_stay(queue: Map<usize, Seq<TaskRef>>, now: usize)
    ensures
        forall|time: usize| #[trigger]
            still_waiting(queue, now).contains_key(time) <==> queue.contains_key(time) && time
                > now,
        forall|time: usize|
            queue.contains_key(time) && time > now ==> #[trigger] still_waiting(queue, now)[time]
                == queue[time],
{
}

/// The tasks woken before `upto` that wait for `time` stand together, in the order in which they
/// were added, behind those for earlier times.
proof fn lemma_block_of_time(queue: Map<usize, Seq<TaskRef>>, time: usize, upto: nat, i: int)
    requires
        time < upto,
        queue.contains_key(time),
        0 <= i < queue[time].len(),
    ensures
        due_before(queue, time as nat).len() + i < due_before(queue, upto).len(),
        due_before(queue, upto)[due_before(queue, time as nat).len() + i] == queue[time][i],
    decreases upto,
{
    if time < upto - 1 {
        lemma_block_of_time(queue, time, (upto - 1) as nat, i);
    }
}

/// Everything woken before `upto` waited for an earlier time.
proof fn lemma_due_came_from(queue: Map<usize, Seq<TaskRef>>, upto: nat, k: int) -> (from: (
    usize,
    int,
))
    requires
        upto <= usize::MAX + 1,
        0 <= k < due_before(queue, upto).len(),
    ensures
        from.0 < upto,
        queue.contains_key(from.0),
        0 <= from.1 < queue[from.0].len(),
        k == due_before(queue, from.0 as nat).len() + from.1,
        due_before(queue, upto)[k] == queue[from.0][from.1],
    decreases upto,
{
    let earlier = due_before(queue, (upto - 1) as nat);
    if k < earlier.len() {
        lemma_due_came_from(queue, (upto - 1) as nat, k)
    } else {
        ((upto - 1) as usize, k - earlier.len())
    }
}

/// Where the tasks that wait for `time` start among those that a check wakes: after all that wait
/// for an earlier time.
pub open spec fn place_of(queue: Map<usize, Seq<TaskRef>>, time: int) -> int
    decreases time,
{
    if time <= 0 {
        0
    } else {
        place_of(queue, time - 1) + if time - 1 <= usize::MAX && queue.contains_key(
            (time - 1) as usize,
        ) {
            queue[(time - 1) as usize].len() as int
        } else {
            0
        }
    }
}

proof fn lemma_place_of(queue: Map<usize, Seq<TaskRef>>, time: nat)
    requires
        time <= usize::MAX + 1,
    ensures
        due_before(queue, time).len() == place_of(queue, time as int),
    decreases time,
{
    if time > 0 {
        lemma_place_of(queue, (time - 1) as nat);
    }
}

/// Somebody waits for `time`, as number `i` of those that do.
pub open spec fn waits_for(queue: Map<usize, Seq<TaskRef>>, time: usize, i: int) -> bool {
    queue.contains_key(time) && 0 <= i < queue[time].len()
}

/// The task waits for a time not after `now`.
pub open spec fn has_waited(queue: Map<usize, Seq<TaskRef>>, now: usize, task: TaskRef) -> bool {
    exists|time: usize, i: int|
        time <= now && #[trigger] waits_for(queue, time, i) && queue[time][i] == task
}

/// A check wakes everybody whose time has come and nobody else, each once: the tasks that wait for
/// a time not after `now` stand together among the woken ones, in the order in which they were
/// added, after all those with earlier times, and there are no others.
pub proof fn law_due_tasks_wake_in_order(queue: Map<usize, Seq<TaskRef>>, now: usize)
    ensures
        due(queue, now).len() == place_of(queue, now + 1),
        forall|time: usize, i: int|
            time <= now && #[trigger] waits_for(queue, time, i) ==> 0 <= place_of(
                queue,
                time as int,
            ) + i < due(queue, now).len() && due(queue, now)[place_of(queue, time as int) + i]
                == queue[time][i],
        forall|k: int|
            0 <= k < due(queue, now).len() ==> has_waited(
                queue,
                now,
                #[trigger] due(queue, now)[k],
            ),
{
    let woken = due(queue, now);
    lemma_place_of(queue, (now + 1) as nat);
    assert forall|time: usize, i: int|
        time <= now && #[trigger] waits_for(queue, time, i) implies 0 <= place_of(
        queue,
        time as int,
    ) + i < woken.len() && woken[place_of(queue, time as int) + i] == queue[time][i] by {
        lemma_place_of(queue, time as nat);
        lemma_block_of_time(queue, time, (now + 1) as nat, i);
    }
    assert forall|k: int| 0 <= k < due(queue, now).len() implies has_waited(
        queue,
        now,
        #[trigger] due(queue, now)[k],
    ) by {
        let (time, i) = lemma_due_came_from(queue, (now + 1) as nat, k);
        assert(waits_for(queue, time, i));
    }
}

/// Checking the queue while the clock reads `ticks` wakes what is due at that time in
/// milliseconds, and takes that and nothing else out of the queue. Without a usable reading
/// nothing happens.
pub proof fn law_check_goes_by_milliseconds(
    before: Map<usize, Seq<TaskRef>>,
    after: Map<usize, Seq<TaskRef>>,
    config: Config,
    ticks: Option<usize>,
    woken: Option<Vec<TaskRef>>,
    now: usize,
)
    requires
        config.clock_freq > 0,
        timer_checked(before, after, config, ticks, woken),
    ensures
        woken is Some <==> (ticks matches Some(t) && t * 1000 <= usize::MAX),
        woken is None ==> after == before,
        ticks matches Some(t) && t * 1000 <= usize::MAX && now * config.clock_freq <= t * 1000
            && t * 1000 < (now + 1) * config.clock_freq ==> {
            &&& (woken->0)@ == due(before, now)
            &&& forall|time: usize| #[trigger]
                after.contains_key(time) <==> before.contains_key(time) && time > now
            &&& forall|time: usize| #[trigger]
                after.contains_key(time) ==> after[time] == before[time]
        },
{
    law_readings_have_their_units(ticks, config);
    if let Some(t) = ticks {
        if t * 1000 <= usize::MAX && now * config.clock_freq <= t * 1000 < (now + 1)
            * config.clock_freq {
            let ms = reading_ms(ticks, config)->0;
            lemma_quotient_is_unique(t * 1000, config.clock_freq as int, now as int);
            lemma_quotient_is_unique(t * 1000, config.clock_freq as int, ms as int);
            law_later_timers_stay(before, now);
        }
    }
}

} // verus!
