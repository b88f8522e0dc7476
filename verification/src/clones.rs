//! Numbering clone groups: monitors that share a display source.

use vstd::prelude::*;
use crate::display::routing::same_source;
use crate::model::SourceKey;

verus! {

/// The first place at which the source of place `at` occurs. Places without a
/// source take no part.
pub open spec fn first_place(keys: Seq<Option<SourceKey>>, at: int) -> int {
    keys.index_of_first(keys[at])->0
}

/// Whether place `at` has a source that another place has too.
pub open spec fn is_shared(keys: Seq<Option<SourceKey>>, at: int) -> bool {
    keys[at] is Some && exists|other: int|
        0 <= other < keys.len() && other != at && #[trigger] keys[other] == keys[at]
}

/// Whether place `at` is the first with a source that several places share.
pub open spec fn opens_group(keys: Seq<Option<SourceKey>>, at: int) -> bool {
    is_shared(keys, at) && first_place(keys, at) == at
}

/// How many shared sources occur before place `end`.
pub open spec fn groups_before(keys: Seq<Option<SourceKey>>, end: int) -> nat
    decreases end,
{
    if end <= 0 {
        0
    } else {
        groups_before(keys, end - 1) + if opens_group(keys, end - 1) {
            1nat
        } else {
            0nat
        }
    }
}

/// `start` plus `count`, at most `u32::MAX`.
pub open spec fn counted_up(start: u32, count: nat) -> u32 {
    if start + count <= u32::MAX {
        (start + count) as u32
    } else {
        u32::MAX
    }
}

/// The group number of place `at`: shared sources are numbered from `start` in
/// the order in which they first occur, and the rest have no number.
pub open spec fn clone_number(keys: Seq<Option<SourceKey>>, start: u32, at: int) -> Option<u32> {
    if is_shared(keys, at) {
        Some(counted_up(start, groups_before(keys, first_place(keys, at))))
    } else {
        None
    }
}

/// The group number of each place.
pub open spec fn clone_numbering(keys: Seq<Option<SourceKey>>, start: u32) -> Seq<Option<u32>> {
    Seq::new(keys.len(), |at: int| clone_number(keys, start, at))
}

proof fn lemma_first_place(keys: Seq<Option<SourceKey>>, at: int)
    requires
        0 <= at < keys.len(),
    ensures
        0 <= first_place(keys, at) <= at,
        keys[first_place(keys, at)] == keys[at],
        forall|i: int| 0 <= i < first_place(keys, at) ==> #[trigger] keys[i] != keys[at],
        first_place(keys, first_place(keys, at)) == first_place(keys, at),
{
    assert(keys.contains(keys[at]));
    keys.index_of_first_ensures(keys[at]);
    let first = first_place(keys, at);
    if at < first {
        assert(keys[at] != keys[at]);
    }
}

proof fn lemma_groups_before(keys: Seq<Option<SourceKey>>, low: int, high: int)
    requires
        0 <= low <= high,
    ensures
        groups_before(keys, low) <= groups_before(keys, high),
        opens_group(keys, low) && low < high ==> groups_before(keys, low) < groups_before(
            keys,
            high,
        ),
    decreases high - low,
{
    if low < high {
        lemma_groups_before(keys, low, high - 1);
    }
}

proof fn lemma_shared_first(keys: Seq<Option<SourceKey>>, at: int)
    requires
        0 <= at < keys.len(),
        is_shared(keys, at),
    ensures
        opens_group(keys, first_place(keys, at)),
{
    lemma_first_place(keys, at);
    let first = first_place(keys, at);
    let other = choose|other: int|
        0 <= other < keys.len() && other != at && #[trigger] keys[other] == keys[at];
    if first == at {
        assert(keys[other] == keys[first]);
    } else {
        assert(keys[at] == keys[first]);
    }
}

/// Groups are numbered without gaps from `start` on, in the order in which
/// their sources first occur: the first group has number `start`, and a later
/// one a higher number than every earlier one, and one more than some other.
pub proof fn lemma_clone_numbers_ascend(
    keys: Seq<Option<SourceKey>>,
    start: u32,
    a: int,
    b: int,
)
    requires
        0 <= a < b < keys.len(),
        start + keys.len() <= u32::MAX,
        clone_number(keys, start, a) is Some,
        clone_number(keys, start, b) is Some,
        forall|i: int| 0 <= i < a ==> #[trigger] keys[i] != keys[a],
        forall|i: int| 0 <= i < b ==> #[trigger] keys[i] != keys[b],
    ensures
        (forall|i: int| 0 <= i < a ==> clone_number(keys, start, i) is None) ==> clone_number(
            keys,
            start,
            a,
        ) == Some(start),
        clone_number(keys, start, a)->0 < clone_number(keys, start, b)->0,
        (forall|i: int| a < i < b ==> clone_number(keys, start, i) is None) ==> clone_number(
            keys,
            start,
            b,
        )->0 == clone_number(keys, start, a)->0 + 1,
{
    lemma_first_place(keys, a);
    lemma_first_place(keys, b);
    lemma_shared_first(keys, a);
    lemma_shared_first(keys, b);
    lemma_count(keys, a);
    lemma_count(keys, b);
    if first_place(keys, a) < a {
        assert(keys[first_place(keys, a)] == keys[a]);
    }
    if first_place(keys, b) < b {
        assert(keys[first_place(keys, b)] == keys[b]);
    }
    lemma_groups_before(keys, a, b);
    if forall|i: int| 0 <= i < a ==> clone_number(keys, start, i) is None {
        lemma_no_groups(keys, start, 0, a);
    }
    if forall|i: int| a < i < b ==> clone_number(keys, start, i) is None {
        lemma_no_groups(keys, start, a + 1, b);
    }
}

proof fn lemma_no_groups(keys: Seq<Option<SourceKey>>, start: u32, low: int, high: int)
    requires
        0 <= low <= high <= keys.len(),
        forall|i: int| low <= i < high ==> clone_number(keys, start, i) is None,
    ensures
        groups_before(keys, high) == groups_before(keys, low),
    decreases high - low,
{
    if low < high {
        lemma_no_groups(keys, start, low, high - 1);
        assert(clone_number(keys, start, high - 1) is None);
    }
}

/// A place is in a clone group exactly where it has a source and another place
/// has the same one.
pub proof fn lemma_clones_share_a_source(keys: Seq<Option<SourceKey>>, start: u32, at: int)
    requires
        0 <= at < keys.len(),
    ensures
        clone_number(keys, start, at) is Some <==> (keys[at] is Some && exists|other: int|
            0 <= other < keys.len() && other != at && #[trigger] keys[other] == keys[at]),
{
}

/// Clone groups are the shared sources: places have the same number exactly
/// where they have the same source, as long as the numbers suffice.
pub proof fn lemma_clone_numbers(keys: Seq<Option<SourceKey>>, start: u32, a: int, b: int)
    requires
        0 <= a < keys.len(),
        0 <= b < keys.len(),
        a != b,
        start + keys.len() <= u32::MAX,
    ensures
        keys[a] is Some && keys[a] == keys[b] <==> clone_number(keys, start, a) is Some
            && clone_number(keys, start, a) == clone_number(keys, start, b),
        clone_number(keys, start, a) matches Some(number) ==> start <= number < start + keys.len(),
{
    lemma_first_place(keys, a);
    lemma_first_place(keys, b);
    lemma_count(keys, first_place(keys, a));
    lemma_count(keys, first_place(keys, b));
    let (low, high) = (first_place(keys, a), first_place(keys, b));
    if keys[a] is Some && keys[a] == keys[b] {
        assert(is_shared(keys, a));
        assert(is_shared(keys, b));
    } else if is_shared(keys, a) && is_shared(keys, b) {
        lemma_shared_first(keys, a);
        lemma_shared_first(keys, b);
        if low < high {
            lemma_groups_before(keys, low, high);
        } else if high < low {
            lemma_groups_before(keys, high, low);
        }
    }
}

proof fn lemma_count(keys: Seq<Option<SourceKey>>, end: int)
    requires
        0 <= end,
    ensures
        groups_before(keys, end) <= end,
    decreases end,
{
    if end > 0 {
        lemma_count(keys, end - 1);
    }
}

fn same_key(a: Option<SourceKey>, b: Option<SourceKey>) -> (r: bool)
    ensures
        r == (a == b),
{
    match (a, b) {
        (Some(left), Some(right)) => same_source(left, right),
        (None, None) => true,
        _ => false,
    }
}

fn find_first(keys: &Vec<Option<SourceKey>>, at: usize) -> (r: usize)
    requires
        at < keys@.len(),
    ensures
        r == first_place(keys@, at as int),
{
    let mut place: usize = 0;
    proof {
        lemma_first_place(keys@, at as int);
    }
    while !same_key(keys[place], keys[at])
        invariant
            at < keys@.len(),
            place <= first_place(keys@, at as int) <= at,
            keys@[first_place(keys@, at as int)] == keys@[at as int],
        decreases at - place,
    {
        place = place + 1;
    }
    proof {
        lemma_first_place(keys@, at as int);
    }
    place
}

fn has_twin(keys: &Vec<Option<SourceKey>>, at: usize) -> (r: bool)
    requires
        at < keys@.len(),
        keys@[at as int] is Some,
    ensures
        r == is_shared(keys@, at as int),
{
    let mut place: usize = 0;
    while place < keys.len()
        invariant
            at < keys@.len(),
            place <= keys@.len(),
            forall|other: int|
                0 <= other < place && other != at ==> #[trigger] keys@[other] != keys@[at as int],
            keys@[at as int] is Some,
        decreases keys@.len() - place,
    {
        if place != at && same_key(keys[place], keys[at]) {
            assert(keys@[place as int] == keys@[at as int]);
            return true;
        }
        place = place + 1;
    }
    false
}

/// Numbers the shared sources from `start` on.
pub fn clone_numbers(keys: &Vec<Option<SourceKey>>, start: u32) -> (r: Vec<Option<u32>>)
    ensures
        r@ == clone_numbering(keys@, start),
{
    let mut numbers: Vec<Option<u32>> = Vec::new();
    let mut next: u32 = start;
    let mut at: usize = 0;
    while at < keys.len()
        invariant
            at <= keys@.len(),
            numbers@ == clone_numbering(keys@, start).take(at as int),
            next == counted_up(start, groups_before(keys@, at as int)),
        decreases keys@.len() - at,
    {
        let mut number: Option<u32> = None;
        proof {
            lemma_first_place(keys@, at as int);
        }
        if keys[at].is_some() && has_twin(keys, at) {
            let first = find_first(keys, at);
            if first == at {
                number = Some(next);
                next = next.saturating_add(1);
            } else {
                number = numbers[first];
                proof {
                    lemma_shared_first(keys@, at as int);
                    assert(clone_numbering(keys@, start).take(at as int)[first as int]
                        == clone_number(keys@, start, first as int));
                }
            }
        }
        numbers.push(number);
        proof {
            assert(number == clone_number(keys@, start, at as int));
            assert(clone_numbering(keys@, start).take(at + 1) =~= clone_numbering(
                keys@,
                start,
            ).take(at as int).push(number));
        }
        at = at + 1;
    }
    proof {
        assert(clone_numbering(keys@, start).take(keys@.len() as int) =~= clone_numbering(
            keys@,
            start,
        ));
    }
    numbers
}

} // verus!
