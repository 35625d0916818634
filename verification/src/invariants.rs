//! What every instruction keeps of a candy machine account: the stored line count
//! equals the number of lines flagged as added, and a line flagged as minted stays
//! minted, so that no config line is ever minted twice.
use vstd::prelude::*;

use crate::config_lines::{
    add_fits, chosen_line, clear_count, config_line_outcome, flag_lines, has_no_nul, lemma_added_line_reads_back,
    lemma_added_lines_in_place, lemma_chosen_line_free, lemma_flag_lines,
    lemma_readding_lines_changes_nothing, lemma_records, line_records, lines_fit, with_added_lines,
};
use crate::layout::{
    added_mask_len_offset, added_mask_start, is_flagged, le_u32_at, le_u32_bytes, lemma_with_flag,
    line_mask, line_offset, minted_mask_start, with_flag, CONFIG_ARRAY_START, CONFIG_LINE_SIZE,
};
use crate::candy::initial_account;
use crate::state::{CandyMachine, ConfigLine};
use crate::error::ErrorCode;

verus! {

/// How many of lines `from .. from + count` have their flag set in the bitmask at `start`.
pub open spec fn set_count(s: Seq<u8>, start: int, from: int, count: nat) -> nat
    decreases count,
{
    if count == 0 {
        0
    } else {
        set_count(s, start, from, (count - 1) as nat) + if is_flagged(s, start, from + count - 1) {
            1nat
        } else {
            0nat
        }
    }
}

/// The account holds the whole layout of a machine with `items` lines, up to the end
/// of the bitmask of minted lines.
pub open spec fn layout_fits(s: Seq<u8>, items: int) -> bool {
    minted_mask_start(items) + (items + 7) / 8 <= s.len()
}

/// The line count stored at `CONFIG_ARRAY_START` is the number of lines flagged as added.
pub open spec fn count_matches(s: Seq<u8>, items: int) -> bool {
    le_u32_at(s, CONFIG_ARRAY_START as int) == set_count(s, added_mask_start(items), 0, items as nat)
}

/// Every line flagged as minted in `s` is flagged as minted in `t`.
pub open spec fn minted_kept(s: Seq<u8>, t: Seq<u8>, items: int) -> bool {
    forall|i: int|
        0 <= i < items && #[trigger] is_flagged(s, minted_mask_start(items), i) ==> is_flagged(
            t,
            minted_mask_start(items),
            i,
        )
}

/// At most `count` lines are flagged among `count` lines.
proof fn lemma_set_count_bound(s: Seq<u8>, start: int, from: int, count: nat)
    ensures
        set_count(s, start, from, count) <= count,
    decreases count,
{
    if count > 0 {
        lemma_set_count_bound(s, start, from, (count - 1) as nat);
    }
}

/// Two bitmasks with the same flags on lines `from .. from + count` count as many set.
proof fn lemma_set_count_same_flags(s: Seq<u8>, t: Seq<u8>, start: int, from: int, count: nat)
    requires
        forall|i: int| from <= i < from + count ==> #[trigger] is_flagged(t, start, i) == is_flagged(s, start, i),
    ensures
        set_count(t, start, from, count) == set_count(s, start, from, count),
    decreases count,
{
    if count > 0 {
        lemma_set_count_same_flags(s, t, start, from, (count - 1) as nat);
        assert(is_flagged(t, start, from + count - 1) == is_flagged(s, start, from + count - 1));
    }
}

/// Setting the flag of line `j` adds one to the count of a range holding `j` when
/// the flag was clear, and nothing otherwise.
proof fn lemma_set_count_with_flag(s: Seq<u8>, start: int, from: int, count: nat, j: int)
    requires
        0 <= start,
        0 <= from,
        0 <= j,
        start + j / 8 < s.len(),
        count > 0 ==> start + (from + count - 1) / 8 < s.len(),
    ensures
        set_count(with_flag(s, start, j), start, from, count) == set_count(s, start, from, count)
            + if from <= j < from + count && !is_flagged(s, start, j) {
            1int
        } else {
            0int
        },
    decreases count,
{
    if count > 0 {
        let c1 = (count - 1) as nat;
        if c1 > 0 {
            assert((from + c1 - 1) / 8 <= (from + count - 1) / 8);
        }
        lemma_set_count_with_flag(s, start, from, c1, j);
        lemma_with_flag(s, start, j, from + count - 1);
    }
}

/// A zero byte has no flag set.
proof fn lemma_zero_byte_flags(m: u8)
    by (bit_vector)
    ensures
        0u8 & m == 0u8,
{
}

/// Taking a config line keeps the invariants of the account: it sets the minted flag
/// of the line it takes, which was clear, changes no other flag, and leaves the line
/// count and the flags of added lines alone. When it takes no line, or under hidden
/// settings, the account does not change.
pub proof fn lemma_taking_line_keeps_invariants(
    a: CandyMachine,
    s: Seq<u8>,
    t: Seq<u8>,
    index: int,
    mint_number: int,
    r: Result<ConfigLine, ErrorCode>,
)
    requires
        0 <= index,
        layout_fits(s, a.data.items_available as int),
        count_matches(s, a.data.items_available as int),
        config_line_outcome(a, s, t, index, mint_number, r),
    ensures
        t.len() == s.len(),
        count_matches(t, a.data.items_available as int),
        minted_kept(s, t, a.data.items_available as int),
        a.data.hidden_settings is Some || chosen_line(s, a.data.items_available as int, index) < 0
            ==> t == s,
        ({
            let items = a.data.items_available as int;
            let c = chosen_line(s, items, index);
            let ms = minted_mask_start(items);
            a.data.hidden_settings is None && c >= 0 ==> {
                &&& 0 <= c < items
                &&& !is_flagged(s, ms, c)
                &&& is_flagged(t, ms, c)
                &&& forall|i: int| 0 <= i < items && i != c ==> #[trigger] is_flagged(t, ms, i)
                    == is_flagged(s, ms, i)
            }
        }),
{
    let items = a.data.items_available as int;
    let c = chosen_line(s, items, index);
    let ms = minted_mask_start(items);
    let astart = added_mask_start(items);
    if a.data.hidden_settings is None && c >= 0 {
        lemma_chosen_line_free(s, items, index);
        assert((items - 1) / 8 < (items + 7) / 8);
        assert(c / 8 <= (items - 1) / 8);
        assert(t == with_flag(s, ms, c));
        assert forall|i: int| 0 <= i < items implies #[trigger] is_flagged(t, ms, i) == (i == c
            || is_flagged(s, ms, i)) by {
            assert(i / 8 <= (items - 1) / 8);
            lemma_with_flag(s, ms, c, i);
        }
        // The line count and the flags of added lines lie before the minted bitmask.
        assert(added_mask_len_offset(items) >= CONFIG_ARRAY_START + 4) by (nonlinear_arith)
            requires
                items >= 0,
                added_mask_len_offset(items) == CONFIG_ARRAY_START + 4 + items * 240,
        ;
        assert forall|i: int| 0 <= i < items implies #[trigger] is_flagged(t, astart, i)
            == is_flagged(s, astart, i) by {
            assert(i / 8 <= items / 8);
        }
        lemma_set_count_same_flags(s, t, astart, 0, items as nat);
        assert(le_u32_at(t, CONFIG_ARRAY_START as int) == le_u32_at(s, CONFIG_ARRAY_START as int));
    }
}

/// Every line minted at one step of a sequence of account states is still minted at
/// every later step, when each step keeps the minted flags.
proof fn lemma_minted_kept_along(states: Seq<Seq<u8>>, items: int, from: int, to: int)
    requires
        0 <= from <= to < states.len(),
        forall|t: int| 0 <= t < states.len() - 1 ==> minted_kept(#[trigger] states[t], states[t + 1], items),
    ensures
        minted_kept(states[from], states[to], items),
    decreases to - from,
{
    if from < to {
        lemma_minted_kept_along(states, items, from, to - 1);
        assert(minted_kept(states[to - 1], states[to], items));
    }
}

/// No config line is ever minted twice: along any sequence of account states in
/// which every step keeps the minted flags (as every instruction does), and the steps
/// that mint take a line whose flag was clear and set it (`lines[t] >= 0`; other
/// steps have `lines[t] < 0`), the lines minted are all different.
pub proof fn lemma_no_line_minted_twice(states: Seq<Seq<u8>>, lines: Seq<int>, items: int)
    requires
        states.len() == lines.len() + 1,
        forall|t: int| 0 <= t < lines.len() ==> minted_kept(#[trigger] states[t], states[t + 1], items),
        forall|t: int|
            0 <= t < lines.len() && #[trigger] lines[t] >= 0 ==> {
                &&& lines[t] < items
                &&& !is_flagged(states[t], minted_mask_start(items), lines[t])
                &&& is_flagged(states[t + 1], minted_mask_start(items), lines[t])
            },
    ensures
        forall|t1: int, t2: int|
            0 <= t1 < t2 < lines.len() && lines[t1] >= 0 && lines[t2] >= 0 ==> #[trigger] lines[t1]
                != #[trigger] lines[t2],
{
    assert forall|t1: int, t2: int|
        0 <= t1 < t2 < lines.len() && lines[t1] >= 0 && lines[t2] >= 0 implies #[trigger] lines[t1]
        != #[trigger] lines[t2] by {
        assert forall|t: int| 0 <= t < states.len() - 1 implies minted_kept(
            #[trigger] states[t],
            states[t + 1],
            items,
        ) by {
            assert(minted_kept(states[t], states[t + 1], items));
        }
        lemma_minted_kept_along(states, items, t1 + 1, t2);
        let ms = minted_mask_start(items);
        assert(is_flagged(states[t1 + 1], ms, lines[t1]));
    }
}

/// The account of a new candy machine, written over a fresh (zeroed) account, has a
/// line count of zero matching an empty bitmask of added lines, and no line minted.
pub proof fn lemma_new_account_invariants(s: Seq<u8>, serialized: Seq<u8>, items: int)
    requires
        0 <= items,
        serialized.len() <= CONFIG_ARRAY_START,
        layout_fits(s, items),
        forall|b: int| CONFIG_ARRAY_START <= b < s.len() ==> s[b] == 0,
    ensures
        initial_account(s, serialized, items).len() == s.len(),
        count_matches(initial_account(s, serialized, items), items),
        le_u32_at(initial_account(s, serialized, items), CONFIG_ARRAY_START as int) == 0,
        forall|i: int| 0 <= i < items ==> !#[trigger] is_flagged(
            initial_account(s, serialized, items),
            minted_mask_start(items),
            i,
        ),
{
    let t = initial_account(s, serialized, items);
    let astart = added_mask_start(items);
    let ms = minted_mask_start(items);
    assert(added_mask_len_offset(items) >= CONFIG_ARRAY_START + 4) by (nonlinear_arith)
        requires
            items >= 0,
            added_mask_len_offset(items) == CONFIG_ARRAY_START + 4 + items * 240,
    ;
    assert(t.len() == s.len());
    assert forall|b: int| astart <= b < s.len() implies t[b] == 0 by {}
    assert forall|i: int| 0 <= i < items implies !#[trigger] is_flagged(t, astart, i) by {
        assert(i / 8 <= items / 8);
        lemma_zero_byte_flags(line_mask(i));
    }
    assert forall|i: int| 0 <= i < items implies !#[trigger] is_flagged(t, ms, i) by {
        assert(i / 8 <= (items + 7) / 8);
        lemma_zero_byte_flags(line_mask(i));
    }
    lemma_set_count_zero(t, astart, 0, items as nat);
    assert(t[CONFIG_ARRAY_START as int] == 0);
    assert(t[CONFIG_ARRAY_START + 1] == 0);
    assert(t[CONFIG_ARRAY_START + 2] == 0);
    assert(t[CONFIG_ARRAY_START + 3] == 0);
}

/// Lines whose flags are all clear count none set.
proof fn lemma_set_count_zero(s: Seq<u8>, start: int, from: int, count: nat)
    requires
        forall|i: int| from <= i < from + count ==> !#[trigger] is_flagged(s, start, i),
    ensures
        set_count(s, start, from, count) == 0,
    decreases count,
{
    if count > 0 {
        lemma_set_count_zero(s, start, from, (count - 1) as nat);
        assert(!is_flagged(s, start, from + count - 1));
    }
}

/// Setting the flags of lines `index .. index + n` raises the count of set flags
/// among lines `0 .. items` by the number of those flags that were clear.
proof fn lemma_set_count_flag_lines(w: Seq<u8>, start: int, index: int, n: nat, items: int)
    requires
        0 <= start,
        0 <= index,
        index + n <= items,
        items > 0 ==> start + (items - 1) / 8 < w.len(),
    ensures
        flag_lines(w, start, index, n).len() == w.len(),
        set_count(flag_lines(w, start, index, n), start, 0, items as nat) == set_count(
            w,
            start,
            0,
            items as nat,
        ) + clear_count(w, start, index, n),
    decreases n,
{
    if n > 0 {
        let n1 = (n - 1) as nat;
        let j = index + n - 1;
        assert(j / 8 <= (items - 1) / 8);
        if n1 > 0 {
            assert((index + n1 - 1) / 8 <= (items - 1) / 8);
        }
        lemma_set_count_flag_lines(w, start, index, n1, items);
        let f = flag_lines(w, start, index, n1);
        lemma_flag_lines(w, start, index, n1, j);
        lemma_set_count_with_flag(f, start, 0, items as nat, j);
    }
}

/// Setting flags leaves the bytes after their bitmask bytes alone.
proof fn lemma_flag_lines_above(s: Seq<u8>, start: int, from: int, count: nat, b: int)
    requires
        0 <= start,
        0 <= from,
        count > 0 ==> start + (from + count - 1) / 8 < b,
        0 <= b < s.len(),
        count > 0 ==> start + (from + count - 1) / 8 < s.len(),
    ensures
        flag_lines(s, start, from, count)[b] == s[b],
        flag_lines(s, start, from, count).len() == s.len(),
    decreases count,
{
    if count > 0 {
        let c1 = (count - 1) as nat;
        if c1 > 0 {
            assert((from + c1 - 1) / 8 <= (from + count - 1) / 8);
        }
        lemma_flag_lines_above(s, start, from, c1, b);
    }
}

/// The bytes of `le_u32_bytes(v)` read back as `v`.
pub(crate) proof fn lemma_le_u32_bytes_value(v: int)
    requires
        0 <= v < 4294967296,
    ensures
        le_u32_bytes(v)[0] + 256 * le_u32_bytes(v)[1] + 65536 * le_u32_bytes(v)[2] + 16777216
            * le_u32_bytes(v)[3] == v,
{
    let b = le_u32_bytes(v);
    assert(b[0] == v % 256);
    assert(b[1] == (v / 256) % 256);
    assert(b[2] == (v / 65536) % 256);
    assert(b[3] == (v / 16777216) % 256);
    assert(v % 256 + 256 * ((v / 256) % 256) + 65536 * ((v / 65536) % 256) + 16777216 * ((v
        / 16777216) % 256) == v) by (nonlinear_arith)
        requires
            0 <= v < 4294967296,
    ;
}

/// The account with the records of `lines` written from line `index`, before any
/// flag is set.
pub open spec fn records_written(s: Seq<u8>, index: int, lines: Seq<ConfigLine>) -> Seq<u8> {
    let pos = line_offset(index);
    let recs = line_records(lines);
    s.subrange(0, pos) + recs + s.subrange(pos + recs.len(), s.len() as int)
}

/// Writing the records of lines within the machine's lines leaves the bytes from the
/// bitmask length on alone.
proof fn lemma_records_written(s: Seq<u8>, items: int, index: int, lines: Seq<ConfigLine>)
    requires
        0 <= index,
        index + lines.len() <= items,
        lines_fit(lines),
        line_offset(index) + lines.len() * CONFIG_LINE_SIZE <= s.len(),
    ensures
        records_written(s, index, lines).len() == s.len(),
        forall|b: int|
            added_mask_len_offset(items) <= b < s.len() ==> #[trigger] records_written(s, index, lines)[b]
                == s[b],
{
    let n = lines.len();
    let pos = line_offset(index);
    let recs = line_records(lines);
    if n > 0 {
        lemma_records(lines, 0);
    } else {
        assert(recs =~= seq![]);
    }
    assert(pos + recs.len() <= added_mask_len_offset(items)) by (nonlinear_arith)
        requires
            pos == CONFIG_ARRAY_START + 4 + index * 240,
            recs.len() == n * 240,
            added_mask_len_offset(items) == CONFIG_ARRAY_START + 4 + items * 240,
            index + n <= items,
            0 <= index,
    ;
    assert(index * 240 >= 0) by (nonlinear_arith)
        requires
            index >= 0,
    ;
}

/// The line count written by adding lines is the number of flags set after it.
#[verifier::spinoff_prover]
proof fn lemma_added_count(s: Seq<u8>, items: int, index: int, lines: Seq<ConfigLine>)
    requires
        s.len() >= CONFIG_ARRAY_START + 4,
        0 <= index,
        index + lines.len() <= items < 4294967296,
        lines_fit(lines),
        add_fits(s.len() as int, items, index, lines.len() as int),
        layout_fits(s, items),
        count_matches(s, items),
    ensures
        count_matches(with_added_lines(s, items, index, lines), items),
{
    let n = lines.len();
    let written = records_written(s, index, lines);
    let astart = added_mask_start(items);
    let flagged = flag_lines(written, astart, index, n);
    let clear = clear_count(written, astart, index, n);
    let cnt = (le_u32_at(s, CONFIG_ARRAY_START as int) + clear) % 4294967296;
    let t = with_added_lines(s, items, index, lines);
    lemma_added_lines_in_place(s, items, index, lines);
    lemma_records_written(s, items, index, lines);
    assert((items - 1) / 8 < (items + 7) / 8);
    assert forall|i: int| 0 <= i < items implies #[trigger] is_flagged(written, astart, i) == is_flagged(
        s,
        astart,
        i,
    ) by {
        assert(i / 8 <= (items - 1) / 8);
    }
    lemma_set_count_same_flags(s, written, astart, 0, items as nat);
    if items > 0 {
        lemma_set_count_flag_lines(written, astart, index, n, items);
    }
    lemma_set_count_bound(flagged, astart, 0, items as nat);
    assert(t == flagged.subrange(0, CONFIG_ARRAY_START as int) + le_u32_bytes(cnt) + flagged.subrange(
        CONFIG_ARRAY_START + 4,
        s.len() as int,
    ));
    assert forall|i: int| 0 <= i < items implies #[trigger] is_flagged(t, astart, i) == is_flagged(
        flagged,
        astart,
        i,
    ) by {
        assert(i / 8 <= (items - 1) / 8);
    }
    lemma_set_count_same_flags(flagged, t, astart, 0, items as nat);
    assert(cnt == set_count(flagged, astart, 0, items as nat));
    lemma_le_u32_bytes_value(cnt);
    assert(t[CONFIG_ARRAY_START as int] == le_u32_bytes(cnt)[0]);
    assert(t[CONFIG_ARRAY_START + 1] == le_u32_bytes(cnt)[1]);
    assert(t[CONFIG_ARRAY_START + 2] == le_u32_bytes(cnt)[2]);
    assert(t[CONFIG_ARRAY_START + 3] == le_u32_bytes(cnt)[3]);
}

/// Adding lines leaves the bitmask of minted lines alone.
#[verifier::spinoff_prover]
proof fn lemma_added_minted_alone(s: Seq<u8>, items: int, index: int, lines: Seq<ConfigLine>)
    requires
        s.len() >= CONFIG_ARRAY_START + 4,
        0 <= index,
        index + lines.len() <= items,
        lines_fit(lines),
        add_fits(s.len() as int, items, index, lines.len() as int),
        layout_fits(s, items),
    ensures
        forall|b: int|
            minted_mask_start(items) <= b < s.len() ==> #[trigger] with_added_lines(s, items, index, lines)[b]
                == s[b],
{
    let n = lines.len();
    let written = records_written(s, index, lines);
    let astart = added_mask_start(items);
    let ms = minted_mask_start(items);
    let t = with_added_lines(s, items, index, lines);
    lemma_added_lines_in_place(s, items, index, lines);
    lemma_records_written(s, items, index, lines);
    assert forall|b: int| ms <= b < s.len() implies #[trigger] t[b] == s[b] by {
        if n > 0 {
            assert((index + n - 1) / 8 <= items / 8);
        }
        lemma_flag_lines_above(written, astart, index, n, b);
    }
}

/// Adding config lines within the machine's lines keeps the invariants of the
/// account: the new line count is still the number of lines flagged as added, and
/// the bitmask of minted lines is left as it was.
pub proof fn lemma_adding_lines_keeps_invariants(
    s: Seq<u8>,
    items: int,
    index: int,
    lines: Seq<ConfigLine>,
)
    requires
        s.len() >= CONFIG_ARRAY_START + 4,
        0 <= index,
        index + lines.len() <= items < 4294967296,
        lines_fit(lines),
        add_fits(s.len() as int, items, index, lines.len() as int),
        layout_fits(s, items),
        count_matches(s, items),
    ensures
        with_added_lines(s, items, index, lines).len() == s.len(),
        count_matches(with_added_lines(s, items, index, lines), items),
        forall|b: int|
            minted_mask_start(items) <= b < s.len() ==> #[trigger] with_added_lines(s, items, index, lines)[b]
                == s[b],
        minted_kept(s, with_added_lines(s, items, index, lines), items),
{
    let t = with_added_lines(s, items, index, lines);
    let ms = minted_mask_start(items);
    lemma_added_lines_in_place(s, items, index, lines);
    lemma_added_count(s, items, index, lines);
    lemma_added_minted_alone(s, items, index, lines);
    assert((items - 1) / 8 < (items + 7) / 8);
    assert forall|i: int| 0 <= i < items && #[trigger] is_flagged(s, ms, i) implies is_flagged(t, ms, i) by {
        assert(i / 8 <= (items - 1) / 8);
        assert(t[ms + i / 8] == s[ms + i / 8]);
    }
}

/// Adding the same config lines again succeeds and changes nothing: on an account
/// whose line count matches its flags, the second call's bounds hold (its count plus
/// the lines still fits in `usize`), and the account it leaves is the one it got.
pub proof fn lemma_readding_lines_succeeds(s: Seq<u8>, items: int, index: int, lines: Seq<ConfigLine>)
    requires
        s.len() >= CONFIG_ARRAY_START + 4,
        0 <= index,
        index + lines.len() <= items < 4294967296,
        added_mask_start(items) <= usize::MAX,
        lines_fit(lines),
        add_fits(s.len() as int, items, index, lines.len() as int),
        layout_fits(s, items),
        count_matches(s, items),
    ensures
        ({
            let t = with_added_lines(s, items, index, lines);
            &&& t.len() == s.len()
            &&& count_matches(t, items)
            &&& le_u32_at(t, CONFIG_ARRAY_START as int) + lines.len() <= usize::MAX
            &&& add_fits(t.len() as int, items, index, lines.len() as int)
            &&& with_added_lines(t, items, index, lines) == t
        }),
{
    let t = with_added_lines(s, items, index, lines);
    lemma_adding_lines_keeps_invariants(s, items, index, lines);
    lemma_readding_lines_changes_nothing(s, items, index, lines);
    lemma_set_count_bound(t, added_mask_start(items), 0, items as nat);
    assert(items * 240 >= 2 * items) by (nonlinear_arith)
        requires
            items >= 0,
    ;
    assert(added_mask_start(items) == CONFIG_ARRAY_START + 8 + items * 240);
    assert(le_u32_at(t, CONFIG_ARRAY_START as int) <= items);
    assert(le_u32_at(t, CONFIG_ARRAY_START as int) + lines.len() <= usize::MAX);
    assert(with_added_lines(t, items, index, lines) == t);
}

/// A line reads back, when it is minted, exactly as it was added: once lines were
/// added from line `index` of a machine without hidden settings, taking a config line
/// from line `index + k`, which is not minted yet and whose minted flag lies in the
/// account, gives the name and URI of the `k`-th line added, as long as they hold no
/// NUL character.
pub proof fn lemma_added_line_is_minted_as_added(
    a: CandyMachine,
    s: Seq<u8>,
    index: int,
    lines: Seq<ConfigLine>,
    k: int,
    after: Seq<u8>,
    mint_number: int,
    r: Result<ConfigLine, ErrorCode>,
)
    requires
        a.data.hidden_settings is None,
        s.len() >= CONFIG_ARRAY_START + 4,
        0 <= index,
        0 <= k < lines.len(),
        index + lines.len() <= a.data.items_available,
        lines_fit(lines),
        add_fits(s.len() as int, a.data.items_available as int, index, lines.len() as int),
        has_no_nul(lines[k].name@),
        has_no_nul(lines[k].uri@),
        minted_mask_start(a.data.items_available as int) + (index + k) / 8 < s.len(),
        !is_flagged(
            with_added_lines(s, a.data.items_available as int, index, lines),
            minted_mask_start(a.data.items_available as int),
            index + k,
        ),
        config_line_outcome(
            a,
            with_added_lines(s, a.data.items_available as int, index, lines),
            after,
            index + k,
            mint_number,
            r,
        ),
    ensures
        r matches Ok(line) && line.name@ == lines[k].name@ && line.uri@ == lines[k].uri@,
{
    let items = a.data.items_available as int;
    let t = with_added_lines(s, items, index, lines);
    let ms = minted_mask_start(items);
    assert(chosen_line(t, items, index + k) == index + k);
    lemma_added_line_reads_back(s, items, index, lines, k);
}

} // verus!
