//! The judgements of the allocator that checks, in tests, that secret values are wiped before
//! their memory is freed: whether a block still holds a marker, and whether it is all zeros.
//! The allocator itself (raw memory, atomics) lives with the application.

use vstd::prelude::*;

verus! {

/// `marker` occurs in `contents` at position `i`.
pub open spec fn occurs_at(contents: Seq<u8>, marker: Seq<u8>, i: int) -> bool {
    0 <= i && i + marker.len() <= contents.len() && contents.subrange(i, i + marker.len()) == marker
}

/// Whether `marker` (not empty) occurs anywhere in `contents`.
pub fn contains_marker(contents: &[u8], marker: &[u8]) -> (r: bool)
    requires
        marker@.len() > 0,
    ensures
        r == exists|i: int| #[trigger] occurs_at(contents@, marker@, i),
{
    if marker.len() > contents.len() {
        proof {
            assert forall|i: int| !#[trigger] occurs_at(contents@, marker@, i) by {}
        }
        return false;
    }
    let n = contents.len();
    let last = n - marker.len();
    let mut i: usize = 0;
    while i <= last
        invariant
            last == contents@.len() - marker@.len(),
            n == contents@.len(),
            0 < marker@.len() <= contents@.len(),
            i <= last + 1,
            forall|k: int| 0 <= k < i ==> !#[trigger] occurs_at(contents@, marker@, k),
        decreases last + 1 - i,
    {
        let mut j: usize = 0;
        let mut same = true;
        while j < marker.len()
            invariant
                last == contents@.len() - marker@.len(),
                n == contents@.len(),
                0 < marker@.len() <= contents@.len(),
                i <= last,
                j <= marker@.len(),
                same == forall|k: int| 0 <= k < j ==> contents@[i + k] == marker@[k],
            decreases marker@.len() - j,
        {
            if contents[i + j] != marker[j] {
                same = false;
            }
            j += 1;
        }
        if same {
            assert(contents@.subrange(i as int, i + marker@.len()) =~= marker@);
            assert(occurs_at(contents@, marker@, i as int));
            return true;
        }
        proof {
            assert(!occurs_at(contents@, marker@, i as int)) by {
                let k = choose|k: int| 0 <= k < marker@.len() && contents@[i + k] != marker@[k];
                if contents@.subrange(i as int, i + marker@.len()) == marker@ {
                    assert(contents@.subrange(i as int, i + marker@.len())[k] == contents@[i + k]);
                }
            }
        }
        i += 1;
    }
    proof {
        assert forall|k: int| !#[trigger] occurs_at(contents@, marker@, k) by {
            if 0 <= k < i {
            }
        }
    }
    false
}

/// Whether every byte of `contents` is zero.
pub fn is_all_zero(contents: &[u8]) -> (r: bool)
    ensures
        r == forall|k: int| 0 <= k < contents@.len() ==> #[trigger] contents@[k] == 0,
{
    let mut i: usize = 0;
    while i < contents.len()
        invariant
            i <= contents@.len(),
            forall|k: int| 0 <= k < i ==> #[trigger] contents@[k] == 0,
        decreases contents@.len() - i,
    {
        if contents[i] != 0 {
            return false;
        }
        i += 1;
    }
    true
}

/// The states of a tracked block.
#[derive(Debug, Clone, Copy, PartialEq, Eq, Structural)]
pub enum FreeState {
    Pending,
    FreedClean,
    FreedDirty,
}

/// How a tracked block is recorded when it is freed with `contents`.
pub fn state_at_free(contents: &[u8]) -> (r: FreeState)
    ensures
        r == (if forall|k: int| 0 <= k < contents@.len() ==> #[trigger] contents@[k] == 0 {
            FreeState::FreedClean
        } else {
            FreeState::FreedDirty
        }),
{
    if is_all_zero(contents) {
        FreeState::FreedClean
    } else {
        FreeState::FreedDirty
    }
}

pub open spec fn count_state(states: Seq<FreeState>, s: FreeState) -> nat
    decreases states.len(),
{
    if states.len() == 0 {
        0
    } else {
        count_state(states.drop_last(), s) + if states.last() == s {
            1nat
        } else {
            0nat
        }
    }
}

/// The blocks of a watch that are not freed yet, and those freed without being wiped.
pub fn wipe_report(states: &[FreeState]) -> (r: (usize, usize))
    ensures
        r.0 == count_state(states@, FreeState::Pending),
        r.1 == count_state(states@, FreeState::FreedDirty),
{
    let mut not_freed: usize = 0;
    let mut dirty: usize = 0;
    let mut i: usize = 0;
    while i < states.len()
        invariant
            i <= states@.len(),
            not_freed == count_state(states@.take(i as int), FreeState::Pending),
            dirty == count_state(states@.take(i as int), FreeState::FreedDirty),
            not_freed <= i,
            dirty <= i,
        decreases states@.len() - i,
    {
        assert(states@.take(i + 1).drop_last() =~= states@.take(i as int));
        match states[i] {
            FreeState::Pending => {
                not_freed += 1;
            },
            FreeState::FreedDirty => {
                dirty += 1;
            },
            FreeState::FreedClean => {},
        }
        i += 1;
    }
    assert(states@.take(states@.len() as int) =~= states@);
    (not_freed, dirty)
}

} // verus!
