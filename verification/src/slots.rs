//! Tables of numbered slots, some of them empty.

use vstd::prelude::*;

verus! {

/// `id` is the first empty slot of `list`, or the number of slots where none is empty.
pub open spec fn lowest_free<T>(list: Seq<Option<T>>, id: int) -> bool {
    &&& 0 <= id <= list.len()
    &&& forall|i: int| 0 <= i < id ==> #[trigger] list[i] is Some
    &&& id < list.len() ==> list[id] is None
}

/// `list` with `value` in slot `id`, where `id` may be the slot just behind the last.
pub open spec fn placed<T>(list: Seq<Option<T>>, id: int, value: Option<T>) -> Seq<Option<T>> {
    if id < list.len() {
        list.update(id, value)
    } else {
        list.push(value)
    }
}

/// `list` with `value` in slot `id`, and with as many empty slots before it as that takes.
pub open spec fn filed<T>(list: Seq<Option<T>>, id: int, value: T) -> Seq<Option<T>> {
    Seq::new(
        if list.len() < id + 1 {
            (id + 1) as nat
        } else {
            list.len()
        },
        |i: int|
            if i == id {
                Some(value)
            } else if i < list.len() {
                list[i]
            } else {
                None
            },
    )
}

/// `value` has been put into the first empty slot of `before`, or into a new one, and `id` is the
/// number of that slot; all other slots are as they were.
pub open spec fn allotted<T>(
    before: Seq<Option<T>>,
    after: Seq<Option<T>>,
    value: T,
    id: isize,
) -> bool {
    exists|slot: usize|
        {
            &&& #[trigger] lowest_free(before, slot as int)
            &&& after == placed(before, slot as int, Some(value))
            &&& id == slot as isize
        }
}

/// Finds the first empty slot, or the number of slots where none is empty.
pub fn find_free<T>(list: &Vec<Option<T>>) -> (id: usize)
    ensures
        lowest_free(list@, id as int),
{
    let mut id: usize = 0;
    while id < list.len()
        invariant
            id <= list.len(),
            forall|i: int| 0 <= i < id ==> #[trigger] list@[i] is Some,
        decreases list.len() - id,
    {
        if list[id].is_none() {
            return id;
        }
        id += 1;
    }
    id
}

/// Puts `value` into the first empty slot, or into a new one, and returns the slot's number.
pub fn place<T>(list: &mut Vec<Option<T>>, value: Option<T>) -> (id: usize)
    ensures
        lowest_free(old(list)@, id as int),
        final(list)@ == placed(old(list)@, id as int, value),
{
    let id: usize = find_free(list);
    if id < list.len() {
        list.set(id, value);
    } else {
        list.push(value);
    }
    id
}

/// Puts `value` into slot `id`, adding empty slots until there is one.
pub fn put_at<T>(list: &mut Vec<Option<T>>, id: usize, value: T)
    requires
        id < usize::MAX,
    ensures
        final(list)@ == filed(old(list)@, id as int, value),
{
    let ghost before = list@;
    while list.len() < id + 1
        invariant
            id < usize::MAX,
            before.len() <= list.len(),
            list.len() <= id + 1 || list.len() == before.len(),
            forall|i: int|
                0 <= i < list.len() ==> #[trigger] list@[i] == if i < before.len() {
                    before[i]
                } else {
                    None
                },
        decreases id + 1 - list.len(),
    {
        list.push(None);
    }
    list.set(id, Some(value));
    assert(list@ =~= filed(before, id as int, value));
}

/// A table has one first empty slot.
pub proof fn law_lowest_free_is_unique<T>(list: Seq<Option<T>>, a: int, b: int)
    requires
        lowest_free(list, a),
        lowest_free(list, b),
    ensures
        a == b,
{
    if a < b {
        assert(list[a] is Some);
    }
    if b < a {
        assert(list[b] is Some);
    }
}

/// Two things put into a table one after the other get different numbers, the second the higher.
pub proof fn law_numbers_differ<T>(
    list: Seq<Option<T>>,
    first: int,
    second: int,
    value: T,
)
    requires
        lowest_free(list, first),
        lowest_free(placed(list, first, Some(value)), second),
    ensures
        first < second,
{
    let next = placed(list, first, Some(value));
    if second < first {
        assert(list[second] is Some);
        assert(next[second] is None);
    }
}

/// Creating something keeps everything that was created before it under its number, and the
/// number handed out was free and now stands for the new thing. (A number is handed out as a
/// signed word, so the table has to be shorter than that can count.)
pub proof fn law_creation_keeps_the_rest<T>(
    before: Seq<Option<T>>,
    after: Seq<Option<T>>,
    value: T,
    id: isize,
)
    requires
        allotted(before, after, value, id),
        before.len() < isize::MAX,
    ensures
        0 <= id < after.len(),
        after[id as int] == Some(value),
        id < before.len() ==> before[id as int] is None,
        forall|i: int| 0 <= i < id ==> #[trigger] before[i] is Some,
        forall|i: int| 0 <= i < before.len() && i != id ==> #[trigger] after[i] == before[i],
        before.len() <= after.len() <= before.len() + 1,
        after.len() > before.len() ==> id == before.len(),
{
}

/// A slot that is left free is the one that is found free the next time.
pub proof fn law_free_slot_is_found_again<T>(list: Seq<Option<T>>, id: int)
    requires
        lowest_free(list, id),
    ensures
        lowest_free(placed(list, id, None), id),
{
    let next = placed(list, id, None);
    assert forall|i: int| 0 <= i < id implies #[trigger] next[i] is Some by {
        assert(list[i] is Some);
    }
}

/// The slot that is found free is empty and no slot before it is. Making sure that it is there
/// leaves it empty, keeps every other slot, and adds at most the one slot.
pub proof fn law_free_slot_is_the_lowest<T>(list: Seq<Option<T>>, next: Seq<Option<T>>, id: int)
    requires
        lowest_free(list, id),
        next == placed(list, id, None),
    ensures
        0 <= id < next.len(),
        next[id] is None,
        id < list.len() ==> list[id] is None,
        forall|i: int| 0 <= i < id ==> #[trigger] list[i] is Some,
        forall|i: int| 0 <= i < list.len() ==> #[trigger] next[i] == list[i],
        list.len() <= next.len() <= list.len() + 1,
        next.len() > list.len() ==> id == list.len(),
{
}

/// What is put into a slot is in it, every other slot that there was is as it was, and slots that
/// had to be added before it are empty.
pub proof fn law_filing_keeps_the_rest<T>(list: Seq<Option<T>>, id: int, value: T)
    requires
        0 <= id,
    ensures
        filed(list, id, value).len() >= list.len(),
        filed(list, id, value).len() > id,
        filed(list, id, value).len() > list.len() ==> filed(list, id, value).len() == id + 1,
        filed(list, id, value)[id] == Some(value),
        forall|i: int|
            0 <= i < list.len() && i != id ==> #[trigger] filed(list, id, value)[i] == list[i],
        forall|i: int| list.len() <= i < id ==> #[trigger] filed(list, id, value)[i] is None,
{
}

} // verus!
