//! The timeline element's view of the volume history.
use vstd::prelude::*;

use crate::history::{find_write_index, lemma_zero_from, recorded, write_index, zero_from};

verus! {

/// The history from the zero marker on, wrapping around: the oldest value
/// first and the newest last.
pub open spec fn in_order(s: Seq<i32>) -> Seq<i32> {
    let k = write_index(s);
    s.skip(k) + s.take(k)
}

/// The history in the order the timeline draws it.
pub fn history_in_order(history: &Vec<i32>) -> (r: Vec<i32>)
    ensures
        r@ == in_order(history@),
{
    let start = find_write_index(history);
    let mut r: Vec<i32> = Vec::new();
    let mut i = start;
    while i < history.len()
        invariant
            start <= i <= history.len(),
            r@ == history@.subrange(start as int, i as int),
        decreases history.len() - i,
    {
        r.push(history[i]);
        i += 1;
    }
    let mut j: usize = 0;
    while j < start
        invariant
            start <= history.len(),
            j <= start,
            r@ == history@.skip(start as int) + history@.take(j as int),
        decreases start - j,
    {
        r.push(history[j]);
        j += 1;
        assert(r@ =~= history@.skip(start as int) + history@.take(j as int));
    }
    r
}

/// Recording keeps the length of the history and leaves a zero marker in
/// it.
pub proof fn lemma_record_keeps_marker(s: Seq<i32>, volume: i32)
    requires
        s.len() >= 1,
    ensures
        recorded(s, volume).len() == s.len(),
        recorded(s, volume).contains(0),
{
    lemma_zero_from(s, 0);
    let k = write_index(s);
    if k != s.len() - 1 {
        assert(recorded(s, volume)[k + 1] == 0);
    } else {
        assert(recorded(s, volume)[0] == 0);
    }
}

/// Recording a (non-zero) value scrolls the timeline by one: the marker
/// stays in front, the oldest value drops out, and the new value comes
/// last.
pub proof fn lemma_record_scrolls(s: Seq<i32>, volume: i32)
    requires
        s.len() >= 2,
        volume != 0,
    ensures
        in_order(recorded(s, volume)) == seq![0i32] + in_order(s).skip(2) + seq![volume],
{
    lemma_zero_from(s, 0);
    let n = s.len();
    let k = write_index(s);
    let t = recorded(s, volume);
    lemma_zero_from(t, 0);
    if k != n - 1 {
        assert(t[k + 1] == 0);
        if zero_from(t, 0) != Some(k + 1) {
            match zero_from(t, 0) {
                Some(z) => {
                    if z < k {
                        assert(s[z] != 0);
                    }
                    if z == k {
                        assert(t[k] == volume);
                    }
                },
                None => {},
            }
        }
        assert(write_index(t) == k + 1);
        assert(in_order(t) =~= seq![0i32] + in_order(s).skip(2) + seq![volume]);
    } else {
        assert(t[0] == 0);
        assert(write_index(t) == 0);
        assert(in_order(t) =~= seq![0i32] + in_order(s).skip(2) + seq![volume]);
    }
}

/// The timeline shows every slot of the history once, starting at the zero
/// marker when there is one.
pub proof fn lemma_in_order_rotates(s: Seq<i32>)
    ensures
        in_order(s).len() == s.len(),
        s.contains(0) ==> in_order(s)[0] == 0,
        forall|i: int| 0 <= i < s.len() ==> in_order(s).contains(#[trigger] s[i]),
{
    lemma_zero_from(s, 0);
    let k = write_index(s);
    if s.contains(0) {
        if zero_from(s, 0) is None {
            let j = choose|j: int| 0 <= j < s.len() && s[j] == 0;
            assert(s[j] != 0);
        }
        assert(in_order(s)[0] == s[k]);
    }
    assert forall|i: int| 0 <= i < s.len() implies in_order(s).contains(#[trigger] s[i]) by {
        if i >= k {
            assert(in_order(s)[i - k] == s[i]);
        } else {
            assert(in_order(s)[s.len() - k + i] == s[i]);
        }
    }
}

} // verus!
