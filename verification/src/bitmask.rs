//! Choosing the config line to mint: a search of the bitmask of minted lines for a
//! line whose flag is clear, forward or backward from a starting line.
use vstd::prelude::*;

use crate::error::ErrorCode;
use crate::layout::{is_flagged, lemma_with_flag, line_mask, lemma_full_byte_flags, minted_mask_start, with_flag, CONFIG_ARRAY_START, CONFIG_LINE_SIZE};

verus! {

/// Where a forward search that finds no free line stops: past the last byte of the
/// bitmask if that byte is full, else at `items`.
pub open spec fn forward_stop(s: Seq<u8>, start: int, items: int) -> int {
    if s[start + (items - 1) / 8] == 255 {
        8 * ((items - 1) / 8 + 1)
    } else {
        items
    }
}

/// Where a backward search from `index` that finds no free line stops.
pub open spec fn backward_stop(s: Seq<u8>, start: int, index: int) -> int {
    if s[start] == 255 {
        if index < 7 {
            index
        } else {
            7
        }
    } else {
        0
    }
}

/// Whether a forward search from `index` reaches line `j`: every line from `index`
/// up to `j` is minted.
pub open spec fn reached_forward(s: Seq<u8>, start: int, index: int, j: int) -> bool {
    forall|k: int| index <= k < j ==> is_flagged(s, start, k)
}

/// Whether a backward search from `index` reaches line `j`: every line after `j`
/// down from `index` is minted.
pub open spec fn reached_backward(s: Seq<u8>, start: int, index: int, j: int) -> bool {
    forall|k: int| j < k <= index ==> is_flagged(s, start, k)
}

/// The bitmask bytes that a search from `index` reads are inside the account `s`
/// with `items` lines: the byte of every line that the search reaches.
pub open spec fn search_fits(s: Seq<u8>, items: int, index: int, pos: bool) -> bool {
    let start = minted_mask_start(items);
    &&& start <= usize::MAX
    &&& index < items ==> if pos {
        forall|j: int|
            index <= j < items && #[trigger] reached_forward(s, start, index, j) ==> start + j / 8
                < s.len()
    } else {
        forall|j: int|
            0 <= j <= index && #[trigger] reached_backward(s, start, index, j) ==> start + j / 8
                < s.len()
    }
}

/// What a search of the minted bitmask `old` (at `start`) from `index` gives back
/// (`r`, `found`) and leaves behind (`new`). Forward (`pos`) it takes the first
/// free line at or after `index`, backward the last free line at or before it, and
/// marks that line minted; when there is none, nothing changes.
pub open spec fn search_outcome(
    old: Seq<u8>,
    new: Seq<u8>,
    start: int,
    items: int,
    index: int,
    pos: bool,
    r: int,
    found: bool,
) -> bool {
    if index >= items {
        r == index && !found && new == old
    } else if pos {
        if found {
            &&& index <= r < items
            &&& !is_flagged(old, start, r)
            &&& forall|j: int| index <= j < r ==> is_flagged(old, start, j)
            &&& new == with_flag(old, start, r)
        } else {
            &&& forall|j: int| index <= j < items ==> is_flagged(old, start, j)
            &&& new == old
            &&& r == forward_stop(old, start, items)
        }
    } else {
        if found {
            &&& 0 <= r <= index
            &&& !is_flagged(old, start, r)
            &&& forall|j: int| r < j <= index ==> is_flagged(old, start, j)
            &&& new == with_flag(old, start, r)
        } else {
            &&& forall|j: int| 0 <= j <= index ==> is_flagged(old, start, j)
            &&& new == old
            &&& r == backward_stop(old, start, index)
        }
    }
}

/// The first line in `[from, end)` whose flag is clear in the bitmask at `start`,
/// or `end` when there is none.
pub open spec fn first_free(s: Seq<u8>, start: int, from: int, end: int) -> int
    decreases end - from,
{
    if from >= end {
        end
    } else if !is_flagged(s, start, from) {
        from
    } else {
        first_free(s, start, from + 1, end)
    }
}

/// The last line in `[0, at]` whose flag is clear in the bitmask at `start`, or
/// `-1` when there is none.
pub open spec fn last_free(s: Seq<u8>, start: int, at: int) -> int
    decreases at + 1,
{
    if at < 0 {
        -1
    } else if !is_flagged(s, start, at) {
        at
    } else {
        last_free(s, start, at - 1)
    }
}

/// A clear flag after a run of set ones is the first free line.
pub proof fn lemma_first_free_is(s: Seq<u8>, start: int, from: int, end: int, r: int)
    requires
        from <= r <= end,
        r < end ==> !is_flagged(s, start, r),
        forall|j: int| from <= j < r ==> is_flagged(s, start, j),
    ensures
        first_free(s, start, from, end) == r,
    decreases r - from,
{
    if from < r {
        lemma_first_free_is(s, start, from + 1, end, r);
    }
}

/// A clear flag before a run of set ones is the last free line.
pub proof fn lemma_last_free_is(s: Seq<u8>, start: int, at: int, r: int)
    requires
        -1 <= r <= at,
        r >= 0 ==> !is_flagged(s, start, r),
        forall|j: int| r < j <= at ==> is_flagged(s, start, j),
    ensures
        last_free(s, start, at) == r,
    decreases at - r,
{
    if r < at {
        lemma_last_free_is(s, start, at - 1, r);
    }
}

/// A search that the contract of `get_good_index` describes takes the first free
/// line forward, the last free line backward, and finds one exactly when there is one.
pub proof fn lemma_search_outcome_free(
    old: Seq<u8>,
    new: Seq<u8>,
    start: int,
    items: int,
    index: int,
    pos: bool,
    r: int,
    found: bool,
)
    requires
        0 <= index,
        search_outcome(old, new, start, items, index, pos, r, found),
    ensures
        index < items && pos ==> (found <==> first_free(old, start, index, items) < items),
        index < items && pos && found ==> r == first_free(old, start, index, items),
        index < items && !pos ==> (found <==> last_free(old, start, index) >= 0),
        index < items && !pos && found ==> r == last_free(old, start, index),
        found ==> new == with_flag(old, start, r),
        !found ==> new == old,
{
    if index < items {
        if pos {
            if found {
                lemma_first_free_is(old, start, index, items, r);
            } else {
                lemma_first_free_is(old, start, index, items, items);
            }
        } else {
            if found {
                lemma_last_free_is(old, start, index, r);
            } else {
                lemma_last_free_is(old, start, index, -1);
            }
        }
    }
}

/// Searches the bitmask of minted lines of an account with `items_available` lines
/// for a line that was not minted yet, starting at `index` and moving forward when
/// `pos` holds, backward otherwise; marks the line it finds as minted. Gives back the
/// line where the search stopped and whether it found a free one.
pub fn get_good_index(arr: &mut Vec<u8>, items_available: usize, index: usize, pos: bool) -> (r:
    Result<(usize, bool), ErrorCode>)
    requires
        search_fits(old(arr)@, items_available as int, index as int, pos),
    ensures
        r matches Ok((i, found)) && search_outcome(
            old(arr)@,
            final(arr)@,
            minted_mask_start(items_available as int),
            items_available as int,
            index as int,
            pos,
            i as int,
            found,
        ),
{
    let mut index_to_use = index;
    let mut taken: u8 = 1;
    let mut found = false;
    let eighth = match items_available.checked_div(8) {
        Some(q) => q,
        None => return Err(ErrorCode::NumericalOverflowError),
    };
    let bit_mask_vec_start = CONFIG_ARRAY_START + 4 + items_available * CONFIG_LINE_SIZE + 4 + eighth
        + 4;
    let ghost start = bit_mask_vec_start as int;
    let ghost s0 = arr@;
    let ghost n = items_available as int;
    assert(start == minted_mask_start(n));

    while taken > 0 && index_to_use < items_available
        invariant
            arr@.len() == s0.len(),
            s0 == old(arr)@,
            start == minted_mask_start(n),
            bit_mask_vec_start == start,
            n == items_available,
            search_fits(s0, n, index as int, pos),
            index >= n ==> index_to_use == index && taken > 0 && !found && arr@ == s0,
            taken > 0 ==> arr@ == s0 && !found,
            taken == 0 ==> {
                &&& found
                &&& index_to_use < n
                &&& !is_flagged(s0, start, index_to_use as int)
                &&& arr@ == with_flag(s0, start, index_to_use as int)
                &&& pos ==> index <= index_to_use && forall|j: int|
                    index <= j < index_to_use ==> is_flagged(s0, start, j)
                &&& !pos ==> index_to_use <= index && forall|j: int|
                    index_to_use < j <= index ==> is_flagged(s0, start, j)
            },
            pos && taken > 0 ==> {
                &&& index <= index_to_use
                &&& index < n ==> index_to_use < n + 8
                &&& forall|j: int| index <= j < index_to_use && j < n ==> is_flagged(s0, start, j)
                &&& index < n && index_to_use >= n ==> index_to_use == forward_stop(s0, start, n)
            },
            !pos && taken > 0 ==> {
                &&& index_to_use <= index
                &&& forall|j: int| index_to_use < j <= index ==> is_flagged(s0, start, j)
                &&& index_to_use < index && index_to_use < 8 ==> (index_to_use == 7 || s0[start]
                    != 255)
            },
        ensures
            search_outcome(s0, arr@, start, n, index as int, pos, index_to_use as int, found),
        decreases
                (if pos {
                    n + 8 - index_to_use
                } else {
                    index_to_use + 1
                }),
                taken,
    {
        let q = match index_to_use.checked_div(8) {
            Some(q) => q,
            None => return Err(ErrorCode::NumericalOverflowError),
        };
        let ghost i = index_to_use as int;
        proof {
            assert(arr.len() == arr@.len());
            assert(n * CONFIG_LINE_SIZE >= n) by (nonlinear_arith)
                requires
                    n >= 0,
                    CONFIG_LINE_SIZE == 240,
            ;
            assert(n + 8 <= start);
            if pos {
                assert(reached_forward(s0, start, index as int, i));
            } else {
                assert(reached_backward(s0, start, index as int, i));
            }
            assert(q == i / 8);
            assert(start + i / 8 < arr@.len());
        }
        let my_position_in_vec = bit_mask_vec_start + q;
        if arr[my_position_in_vec] == 255 {
            let rem = match index_to_use.checked_rem(8) {
                Some(m) => m,
                None => return Err(ErrorCode::NumericalOverflowError),
            };
            let eight_remainder = 8 - rem;
            let reversed = 8 - eight_remainder + 1;
            proof {
                // Every line of a full byte is flagged.
                assert forall|j: int| 8 * (i / 8) <= j < 8 * (i / 8) + 8 implies is_flagged(
                    s0,
                    start,
                    j,
                ) by {
                    assert(j / 8 == i / 8);
                    lemma_full_byte_flags(s0[start + j / 8], (7 - j % 8) as u8);
                }
            }
            if (eight_remainder != 0 && pos) || (reversed != 0 && !pos) {
                if pos {
                    index_to_use += eight_remainder;
                    proof {
                        if index_to_use >= n {
                            assert((n - 1) / 8 == i / 8);
                        }
                    }
                } else {
                    if index_to_use < 8 {
                        break;
                    }
                    index_to_use -= reversed;
                }
            } else {
                if pos {
                    index_to_use += 8;
                } else {
                    index_to_use -= 8;
                }
            }
        } else {
            let rem = match index_to_use.checked_rem(8) {
                Some(m) => m,
                None => return Err(ErrorCode::NumericalOverflowError),
            };
            let position_from_right = 7 - rem;
            let mask: u8 = 1u8 << (position_from_right as u8);
            taken = mask & arr[my_position_in_vec];
            proof {
                let b = arr@[my_position_in_vec as int];
                assert(mask & b == b & mask) by (bit_vector);
                assert(mask == line_mask(i));
            }
            if taken > 0 {
                if pos {
                    index_to_use += 1;
                } else {
                    if index_to_use == 0 {
                        break;
                    }
                    index_to_use -= 1;
                }
            } else if taken == 0 {
                found = true;
                let v = arr[my_position_in_vec] | mask;
                arr.set(my_position_in_vec, v);
                assert(arr@ =~= with_flag(s0, start, i));
            }
        }
    }
    Ok((index_to_use, found))
}

/// A search changes only the flag of the line it finds: that line was free before
/// and is minted after, and every other line keeps its flag.
pub proof fn lemma_search_marks_only_found(
    old: Seq<u8>,
    new: Seq<u8>,
    start: int,
    items: int,
    index: int,
    pos: bool,
    r: int,
    found: bool,
    j: int,
)
    requires
        0 <= start,
        0 <= index,
        start + (items + 7) / 8 <= old.len(),
        search_outcome(old, new, start, items, index, pos, r, found),
        0 <= j < items,
    ensures
        found ==> 0 <= r < items && !is_flagged(old, start, r) && is_flagged(new, start, r),
        j != r || !found ==> is_flagged(new, start, j) == is_flagged(old, start, j),
        new.len() == old.len(),
{
    if found {
        assert(r / 8 <= (items - 1) / 8);
        assert(j / 8 <= (items - 1) / 8);
        lemma_with_flag(old, start, r, r);
        lemma_with_flag(old, start, r, j);
    }
}

/// A line is handed out at most once: after a search took line `r1`, a later search
/// that finds a line takes another one, and `r1` stays minted.
pub proof fn lemma_minted_line_not_taken_again(
    s0: Seq<u8>,
    s1: Seq<u8>,
    s2: Seq<u8>,
    start: int,
    items: int,
    index1: int,
    pos1: bool,
    r1: int,
    index2: int,
    pos2: bool,
    r2: int,
)
    requires
        0 <= start,
        0 <= index1,
        0 <= index2,
        start + (items + 7) / 8 <= s0.len(),
        search_outcome(s0, s1, start, items, index1, pos1, r1, true),
        search_outcome(s1, s2, start, items, index2, pos2, r2, true),
    ensures
        r1 != r2,
        is_flagged(s2, start, r1),
{
    lemma_search_marks_only_found(s0, s1, start, items, index1, pos1, r1, true, r1);
    lemma_search_marks_only_found(s1, s2, start, items, index2, pos2, r2, true, r1);
}

} // verus!
