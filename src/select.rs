use vstd::prelude::*;

verus! {

/// Position `i` comes before position `j`: by key, then by position.
pub open spec fn key_before(keys: Seq<i64>, i: int, j: int) -> bool {
    ||| keys[i] < keys[j]
    ||| (keys[i] == keys[j] && i < j)
}

pub open spec fn in_order(order: Seq<usize>, j: int) -> bool {
    exists|k: int| 0 <= k < order.len() && order[k] == j
}

/// `order` lists, in key order, the first `limit` eligible positions (or all of
/// them, where there are fewer).
pub open spec fn first_by(keys: Seq<i64>, elig: Seq<bool>, limit: int, order: Seq<usize>) -> bool {
    &&& order.len() <= limit
    &&& forall|k: int| 0 <= k < order.len() ==> (#[trigger] order[k]) < keys.len() && elig[order[k] as int]
    &&& forall|a: int, b: int|
        0 <= a < b < order.len() ==> key_before(keys, #[trigger] order[a] as int, #[trigger] order[b] as int)
    &&& forall|j: int|
        0 <= j < keys.len() && elig[j] ==> {
            ||| #[trigger] in_order(order, j)
            ||| (order.len() == limit && (order.len() == 0 || key_before(keys, order.last() as int, j)))
        }
}

fn key_less(keys: &Vec<i64>, i: usize, j: usize) -> (r: bool)
    requires
        i < keys@.len(),
        j < keys@.len(),
    ensures
        r == key_before(keys@, i as int, j as int),
{
    let ti = keys[i];
    let tj = keys[j];
    ti < tj || (ti == tj && i < j)
}

/// The eligible position that comes first after position `after` in key order
/// (first of all, where `after` is `None`).
fn next_after(keys: &Vec<i64>, elig: &Vec<bool>, after: Option<usize>) -> (r: Option<usize>)
    requires
        keys@.len() == elig@.len(),
        after matches Some(a) ==> a < keys@.len(),
    ensures
        match r {
            Some(b) => {
                &&& b < keys@.len()
                &&& elig@[b as int]
                &&& (after matches Some(a) ==> key_before(keys@, a as int, b as int))
                &&& forall|q: int|
                    0 <= q < keys@.len() && elig@[q] && (after matches Some(a) ==> key_before(
                        keys@,
                        a as int,
                        q,
                    )) ==> q == b || key_before(keys@, b as int, q)
            },
            None => forall|q: int|
                0 <= q < keys@.len() && elig@[q] ==> !(after matches Some(a) ==> key_before(
                    keys@,
                    a as int,
                    q,
                )),
        },
{
    let mut best: Option<usize> = None;
    let mut j: usize = 0;
    while j < keys.len()
        invariant
            j <= keys@.len(),
            keys@.len() == elig@.len(),
            after matches Some(a) ==> a < keys@.len(),
            match best {
                Some(b) => {
                    &&& b < j
                    &&& elig@[b as int]
                    &&& (after matches Some(a) ==> key_before(keys@, a as int, b as int))
                    &&& forall|q: int|
                        0 <= q < j && elig@[q] && (after matches Some(a) ==> key_before(
                            keys@,
                            a as int,
                            q,
                        )) ==> q == b || key_before(keys@, b as int, q)
                },
                None => forall|q: int|
                    0 <= q < j && elig@[q] ==> !(after matches Some(a) ==> key_before(
                        keys@,
                        a as int,
                        q,
                    )),
            },
        decreases keys@.len() - j,
    {
        if elig[j] {
            let above = match after {
                Some(a) => key_less(keys, a, j),
                None => true,
            };
            if above {
                match best {
                    Some(b) => {
                        if key_less(keys, j, b) {
                            best = Some(j);
                        }
                    },
                    None => {
                        best = Some(j);
                    },
                }
            }
        }
        j = j + 1;
    }
    best
}

/// The first `limit` eligible positions in key order.
pub fn select_first(keys: &Vec<i64>, elig: &Vec<bool>, limit: usize) -> (r: Vec<usize>)
    requires
        keys@.len() == elig@.len(),
    ensures
        first_by(keys@, elig@, limit as int, r@),
{
    let mut order: Vec<usize> = Vec::new();
    let mut done = false;
    while !done && order.len() < limit
        invariant
            order@.len() <= limit,
            keys@.len() == elig@.len(),
            forall|k: int|
                0 <= k < order@.len() ==> (#[trigger] order@[k]) < keys@.len() && elig@[order@[k] as int],
            forall|a: int, b: int|
                0 <= a < b < order@.len() ==> key_before(
                    keys@,
                    #[trigger] order@[a] as int,
                    #[trigger] order@[b] as int,
                ),
            forall|j: int|
                0 <= j < keys@.len() && elig@[j] ==> (#[trigger] in_order(order@, j) <==> (
                order@.len() > 0 && !key_before(keys@, order@.last() as int, j))),
            done ==> forall|j: int| 0 <= j < keys@.len() && elig@[j] ==> in_order(order@, j),
        decreases limit - order@.len(), (if done { 0int } else { 1int }),
    {
        let after = if order.len() == 0 {
            None
        } else {
            Some(order[order.len() - 1])
        };
        match next_after(keys, elig, after) {
            None => {
                proof {
                    assert forall|j: int| 0 <= j < keys@.len() && elig@[j] implies in_order(
                        order@,
                        j,
                    ) by {
                        assert(in_order(order@, j) <==> (order@.len() > 0 && !key_before(
                            keys@,
                            order@.last() as int,
                            j,
                        )));
                    }
                }
                done = true;
            },
            Some(b) => {
                let ghost old_order = order@;
                order.push(b);
                proof {
                    assert(order@.last() == b);
                    assert forall|k: int| 0 <= k < old_order.len() implies #[trigger] order@[k]
                        == old_order[k] by {}
                    assert forall|a: int, c: int| 0 <= a < c < order@.len() implies key_before(
                        keys@,
                        #[trigger] order@[a] as int,
                        #[trigger] order@[c] as int,
                    ) by {
                        if c == old_order.len() {
                            let l = old_order.len() - 1;
                            if a < l {
                                assert(key_before(keys@, old_order[a] as int, old_order[l] as int));
                            }
                        } else {
                            assert(key_before(keys@, old_order[a] as int, old_order[c] as int));
                        }
                    }
                    assert forall|j: int| 0 <= j < keys@.len() && elig@[j] implies (
                    #[trigger] in_order(order@, j) <==> (order@.len() > 0 && !key_before(
                        keys@,
                        order@.last() as int,
                        j,
                    ))) by {
                        assert(in_order(old_order, j) <==> (old_order.len() > 0 && !key_before(
                            keys@,
                            old_order.last() as int,
                            j,
                        )));
                        if in_order(order@, j) {
                            let k = choose|k: int| 0 <= k < order@.len() && order@[k] == j;
                            if k < old_order.len() {
                                assert(old_order[k] == j);
                                assert(in_order(old_order, j));
                            }
                        }
                        if !key_before(keys@, b as int, j) {
                            if j == b as int {
                                assert(order@[old_order.len() as int] == b);
                            } else {
                                assert(in_order(old_order, j));
                                let k = choose|k: int| 0 <= k < old_order.len() && old_order[k] == j;
                                assert(order@[k] == j);
                            }
                        }
                    }
                }
            },
        }
    }
    proof {
        assert forall|j: int| 0 <= j < keys@.len() && elig@[j] implies {
            ||| #[trigger] in_order(order@, j)
            ||| (order@.len() == limit && (order@.len() == 0 || key_before(
                keys@,
                order@.last() as int,
                j,
            )))
        } by {
            assert(in_order(order@, j) <==> (order@.len() > 0 && !key_before(
                keys@,
                order@.last() as int,
                j,
            )));
        }
    }
    order
}

} // verus!
