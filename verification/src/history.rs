//! The volume history: a ring of recent loudness values in which a zero
//! marks the slot that is written next.
use vstd::prelude::*;

verus! {

/// How many loudness values the history keeps.
pub const AUDIO_HISTORY_LEN: usize = 400;

/// The index of the first zero in `s` at or after `i`.
pub open spec fn zero_from(s: Seq<i32>, i: int) -> Option<int>
    decreases s.len() - i,
{
    if i < 0 || i >= s.len() {
        None
    } else if s[i] == 0 {
        Some(i)
    } else {
        zero_from(s, i + 1)
    }
}

/// The slot that is written next: the first zero, or the first slot when
/// there is no zero.
pub open spec fn write_index(s: Seq<i32>) -> int {
    match zero_from(s, 0) {
        Some(k) => k,
        None => 0,
    }
}

/// The history after recording `volume`: it is written into the next slot,
/// and the slot after it (the first one, after the last) becomes the new
/// zero marker.
pub open spec fn recorded(s: Seq<i32>, volume: i32) -> Seq<i32> {
    let k = write_index(s);
    if k != s.len() - 1 {
        s.update(k, volume).update(k + 1, 0)
    } else {
        s.update(k, volume).update(0, 0)
    }
}

pub proof fn lemma_zero_from(s: Seq<i32>, i: int)
    requires
        0 <= i <= s.len(),
    ensures
        zero_from(s, i) matches Some(k) ==> i <= k < s.len() && s[k] == 0 && forall|q: int|
            i <= q < k ==> s[q] != 0,
        zero_from(s, i) is None ==> forall|q: int| i <= q < s.len() ==> s[q] != 0,
    decreases s.len() - i,
{
    if i < s.len() && s[i] != 0 {
        lemma_zero_from(s, i + 1);
    }
}

/// The index of the first zero, found by scanning; as `write_index`.
pub fn find_write_index(history: &Vec<i32>) -> (k: usize)
    ensures
        k == write_index(history@),
        history.len() > 0 ==> k < history.len(),
{
    let mut i: usize = 0;
    while i < history.len()
        invariant
            i <= history.len(),
            zero_from(history@, 0) == zero_from(history@, i as int),
        decreases history.len() - i,
    {
        if history[i] == 0 {
            return i;
        }
        i += 1;
    }
    0
}

/// Records one loudness value in the history.
pub fn record_volume(history: &mut Vec<i32>, volume: i32)
    requires
        old(history).len() >= 1,
    ensures
        final(history)@ == recorded(old(history)@, volume),
{
    let index = find_write_index(history);
    if index != history.len() - 1 {
        history.set(index, volume);
        history.set(index + 1, 0);
    } else {
        history.set(index, volume);
        history.set(0, 0);
    }
}

} // verus!
