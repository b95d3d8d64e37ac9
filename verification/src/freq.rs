//! A frequency counter for dice rolls: tallies how often each face of a
//! six-sided die occurs in a list of rolls.

use vstd::prelude::*;

verus! {

/// How many times `v` occurs in `s`.
pub open spec fn count_of(s: Seq<i32>, v: i32) -> nat
    decreases s.len(),
{
    if s.len() == 0 {
        0
    } else {
        count_of(s.drop_last(), v) + (if s.last() == v {
            1nat
        } else {
            0nat
        })
    }
}

/// Tallies the rolls of a six-sided die: slot `k` of the result counts the
/// occurrences of face `k + 1` in `roll_list`.
pub fn calc_freq(roll_list: &Vec<i32>) -> (freq_list: [i32; 6])
    requires
        roll_list@.len() <= i32::MAX,
        forall|i: int| 0 <= i < roll_list@.len() ==> 1 <= #[trigger] roll_list@[i] <= 6,
    ensures
        forall|k: int| 0 <= k < 6 ==> #[trigger] freq_list[k] == count_of(
            roll_list@,
            (k + 1) as i32,
        ),
{
    let mut freq_list: [i32; 6] = [0; 6];
    let n = roll_list.len();
    for i in 0..n
        invariant
            n == roll_list@.len(),
            n <= i32::MAX,
            forall|j: int| 0 <= j < n ==> 1 <= #[trigger] roll_list@[j] <= 6,
            forall|k: int|
                0 <= k < 6 ==> #[trigger] freq_list[k] == count_of(
                    roll_list@.take(i as int),
                    (k + 1) as i32,
                ),
            forall|k: int| 0 <= k < 6 ==> #[trigger] freq_list[k] <= i,
    {
        let v = roll_list[i];
        let slot = (v - 1) as usize;
        freq_list[slot] = freq_list[slot] + 1;
        proof {
            assert forall|k: int| 0 <= k < 6 implies #[trigger] freq_list[k] == count_of(
                roll_list@.take(i + 1),
                (k + 1) as i32,
            ) by {
                assert(roll_list@.take(i + 1).drop_last() =~= roll_list@.take(i as int));
                assert(roll_list@.take(i + 1).last() == roll_list@[i as int]);
            }
        }
    }
    proof {
        assert(roll_list@.take(n as int) =~= roll_list@);
    }
    freq_list
}

} // verus!
