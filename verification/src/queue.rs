//! Taking runs of items from the front of a queue.

use vstd::prelude::*;
use std::collections::VecDeque;

verus! {

/// Takes the first `n` items from the front of `queue`, in order.
pub fn take_front<T>(queue: &mut VecDeque<T>, n: usize) -> (items: Vec<T>)
    requires
        old(queue)@.len() >= n,
    ensures
        items@ == old(queue)@.take(n as int),
        final(queue)@ == old(queue)@.skip(n as int),
{
    let ghost start = queue@;
    let mut items: Vec<T> = Vec::new();
    let mut i: usize = 0;
    while i < n
        invariant
            i <= n,
            start.len() >= n,
            start == old(queue)@,
            queue@ == start.skip(i as int),
            items@ == start.take(i as int),
        decreases n - i,
    {
        match queue.pop_front() {
            Some(x) => {
                items.push(x);
                assert(items@ =~= start.take(i as int + 1));
            },
            None => {
                assert(false);
            },
        }
        assert(queue@ =~= start.skip(i as int + 1));
        i = i + 1;
    }
    items
}

} // verus!
