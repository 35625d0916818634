//! The config lines of a candy machine: how they are stored in its account, added
//! by its authority and read back when a token is minted.
use vstd::prelude::*;
use vstd::utf8::{
    decode_utf8, encode_scalar, encode_utf8, encode_utf8_decode_utf8, encode_utf8_valid_utf8,
    valid_utf8,
};

use crate::bitmask::{
    first_free, get_good_index, last_free, lemma_first_free_is, lemma_last_free_is,
    lemma_search_outcome_free, reached_backward, reached_forward, search_fits,
};
use crate::error::ErrorCode;
use crate::layout::{
    added_mask_len_offset, added_mask_start, is_flagged, le_u32_at, le_u32_bytes, lemma_line_within, lemma_set_flag,
    lemma_with_flag, line_mask, line_offset, minted_mask_start, with_flag, CONFIG_ARRAY_START,
    CONFIG_LINE_SIZE, MAX_NAME_LENGTH, MAX_URI_LENGTH,
};
use crate::state::{CandyMachine, ConfigLine};
use crate::trusted::utf8_string;

verus! {

/// Where the text stored in `s[lo..hi]` ends: at its first zero byte, or at `hi`.
pub open spec fn field_end(s: Seq<u8>, lo: int, hi: int) -> int
    decreases hi - lo,
{
    if lo >= hi {
        hi
    } else if s[lo] == 0 {
        lo
    } else {
        field_end(s, lo + 1, hi)
    }
}

/// The bytes of the text stored, zero-padded, in `s[lo..hi]`.
pub open spec fn field_bytes(s: Seq<u8>, lo: int, hi: int) -> Seq<u8> {
    s.subrange(lo, field_end(s, lo, hi))
}

/// The name and URI stored as config line `i` of the account `s`, or the error that
/// reading it gives.
pub open spec fn stored_line(s: Seq<u8>, i: int) -> Result<(Seq<char>, Seq<char>), ErrorCode> {
    let base = line_offset(i);
    let name = field_bytes(s, base + 4, base + 4 + MAX_NAME_LENGTH);
    let uri = field_bytes(
        s,
        base + 8 + MAX_NAME_LENGTH,
        base + 8 + MAX_NAME_LENGTH + MAX_URI_LENGTH,
    );
    if s[base] == 1 {
        Err(ErrorCode::CannotFindUsableConfigLine)
    } else if !valid_utf8(name) || !valid_utf8(uri) {
        Err(ErrorCode::InvalidString)
    } else {
        Ok((decode_utf8(name), decode_utf8(uri)))
    }
}

/// The line that minting from `index` takes: the first one not minted at or after
/// `index`, else the last one not minted before it, else none (`-1`).
pub open spec fn chosen_line(s: Seq<u8>, items: int, index: int) -> int {
    let start = minted_mask_start(items);
    if first_free(s, start, index, items) < items {
        first_free(s, start, index, items)
    } else if index < items && last_free(s, start, index) >= 0 {
        last_free(s, start, index)
    } else {
        -1
    }
}

/// The bytes that taking a config line from `index` reads are inside the account
/// `s` with `items` lines: the bitmask bytes that the forward search reads, and those
/// of the backward search when the forward one finds nothing. The chosen line lies
/// before the bitmask, so it is inside the account too.
pub open spec fn config_line_fits(s: Seq<u8>, items: int, index: int) -> bool {
    &&& items <= usize::MAX
    &&& search_fits(s, items, index, true)
    &&& first_free(s, minted_mask_start(items), index, items) >= items ==> search_fits(
        s,
        items,
        index,
        false,
    )
}

/// The character of a decimal digit.
pub open spec fn digit_char(d: nat) -> char {
    (48 + d) as char
}

/// The decimal representation of `n`, most significant digit first, without
/// leading zeros.
pub open spec fn decimal_digits(n: nat) -> Seq<char>
    decreases n,
{
    if n < 10 {
        seq![digit_char(n)]
    } else {
        decimal_digits(n / 10).push(digit_char(n % 10))
    }
}

/// The text of one decimal digit.
fn digit_text(d: u64) -> (t: &'static str)
    requires
        d < 10,
    ensures
        t@ == seq![digit_char(d as nat)],
{
    match d {
        0 => {
            proof {
                reveal_strlit("0");
            }
            "0"
        },
        1 => {
            proof {
                reveal_strlit("1");
            }
            "1"
        },
        2 => {
            proof {
                reveal_strlit("2");
            }
            "2"
        },
        3 => {
            proof {
                reveal_strlit("3");
            }
            "3"
        },
        4 => {
            proof {
                reveal_strlit("4");
            }
            "4"
        },
        5 => {
            proof {
                reveal_strlit("5");
            }
            "5"
        },
        6 => {
            proof {
                reveal_strlit("6");
            }
            "6"
        },
        7 => {
            proof {
                reveal_strlit("7");
            }
            "7"
        },
        8 => {
            proof {
                reveal_strlit("8");
            }
            "8"
        },
        _ => {
            proof {
                reveal_strlit("9");
            }
            "9"
        },
    }
}

/// The decimal representation of `n`.
fn decimal_string(n: u64) -> (s: String)
    ensures
        s@ == decimal_digits(n as nat),
    decreases n,
{
    if n < 10 {
        let mut s = String::new();
        s.append(digit_text(n));
        assert(s@ =~= decimal_digits(n as nat));
        s
    } else {
        let mut s = decimal_string(n / 10);
        s.append(digit_text(n % 10));
        assert(s@ =~= decimal_digits(n as nat));
        s
    }
}

/// The name of a token minted under hidden settings: the shared name, `#`, and the
/// token's number.
pub open spec fn hidden_name(name: Seq<char>, number: nat) -> Seq<char> {
    name + seq!['#'] + decimal_digits(number)
}

/// The number that a text of decimal digits, most significant first, stands for.
pub open spec fn digits_value(t: Seq<char>) -> int
    decreases t.len(),
{
    if t.len() == 0 {
        0
    } else {
        10 * digits_value(t.drop_last()) + (t.last() as int - 48)
    }
}

/// The decimal representation of a number is made of digits, starts with a nonzero
/// digit unless the number is 0, and stands for the number.
pub proof fn lemma_decimal_digits_read_back(n: nat)
    ensures
        decimal_digits(n).len() > 0,
        forall|i: int| 0 <= i < decimal_digits(n).len() ==> '0' <= #[trigger] decimal_digits(n)[i] <= '9',
        n > 0 ==> decimal_digits(n)[0] != '0',
        digits_value(decimal_digits(n)) == n,
    decreases n,
{
    if n >= 10 {
        lemma_decimal_digits_read_back(n / 10);
        let d = decimal_digits(n);
        assert(d.drop_last() =~= decimal_digits(n / 10));
        assert(d[0] == decimal_digits(n / 10)[0]);
        assert(d.last() == digit_char(n % 10));
        assert(digit_char(n % 10) as int == 48 + n % 10);
        assert(digits_value(d) == 10 * digits_value(decimal_digits(n / 10)) + (n % 10));
        assert(10 * (n / 10) + n % 10 == n);
        assert forall|i: int| 0 <= i < d.len() implies '0' <= #[trigger] d[i] <= '9' by {
            if i < d.len() - 1 {
                assert(d[i] == decimal_digits(n / 10)[i]);
            }
        }
    } else {
        assert(decimal_digits(n).drop_last() =~= Seq::<char>::empty());
        assert(digit_char(n) as int == 48 + n);
        assert(digits_value(Seq::<char>::empty()) == 0);
        assert(digits_value(decimal_digits(n)) == 10 * digits_value(decimal_digits(n).drop_last()) + (
        decimal_digits(n).last() as int - 48));
    }
}

/// Under hidden settings the token numbered `mint_number + 1` (tokens count from 1)
/// is named with the shared name, `#` and that number in decimal, carries the shared
/// URI, and the account is not touched.
pub proof fn lemma_hidden_tokens_numbered_from_one(
    a: CandyMachine,
    s: Seq<u8>,
    t: Seq<u8>,
    index: int,
    mint_number: nat,
    r: Result<ConfigLine, ErrorCode>,
)
    requires
        a.data.hidden_settings is Some,
        config_line_outcome(a, s, t, index, mint_number as int, r),
    ensures
        t == s,
        r matches Ok(line) && {
            let shared = a.data.hidden_settings->0.name@;
            let number = line.name@.subrange(shared.len() + 1int, line.name@.len() as int);
            &&& line.uri@ == a.data.hidden_settings->0.uri@
            &&& line.name@.len() > shared.len() + 1
            &&& line.name@.subrange(0, shared.len() as int) == shared
            &&& line.name@[shared.len() as int] == '#'
            &&& forall|i: int| 0 <= i < number.len() ==> '0' <= #[trigger] number[i] <= '9'
            &&& digits_value(number) == mint_number + 1
        },
{
    let shared = a.data.hidden_settings->0.name@;
    let d = decimal_digits(mint_number + 1);
    lemma_decimal_digits_read_back(mint_number + 1);
    let line = r->Ok_0;
    assert(line.name@ == shared + seq!['#'] + d);
    assert(line.name@.subrange(shared.len() + 1int, line.name@.len() as int) =~= d);
    assert(line.name@.subrange(0, shared.len() as int) =~= shared);
}

/// `n` zero bytes.
pub open spec fn zeros(n: int) -> Seq<u8> {
    Seq::new(n as nat, |_i: int| 0u8)
}

/// How a config line is stored: its name and its URI, each as a little-endian `u32`
/// length and the text padded with zero bytes to that length.
pub open spec fn line_record(name: Seq<u8>, uri: Seq<u8>) -> Seq<u8> {
    le_u32_bytes(MAX_NAME_LENGTH as int) + name + zeros(MAX_NAME_LENGTH - name.len())
        + le_u32_bytes(MAX_URI_LENGTH as int) + uri + zeros(MAX_URI_LENGTH - uri.len())
}

/// The stored form of a sequence of config lines, one record after the other.
pub open spec fn line_records(lines: Seq<ConfigLine>) -> Seq<u8>
    decreases lines.len(),
{
    if lines.len() == 0 {
        seq![]
    } else {
        line_records(lines.drop_last()) + line_record(
            encode_utf8(lines.last().name@),
            encode_utf8(lines.last().uri@),
        )
    }
}

/// The bitmask at `start` with the flags of lines `from .. from + count` set, one
/// after the other.
pub open spec fn flag_lines(s: Seq<u8>, start: int, from: int, count: nat) -> Seq<u8>
    decreases count,
{
    if count == 0 {
        s
    } else {
        with_flag(flag_lines(s, start, from, (count - 1) as nat), start, from + count - 1)
    }
}

/// How many of lines `from .. from + count` have a clear flag in the bitmask at `start`.
pub open spec fn clear_count(s: Seq<u8>, start: int, from: int, count: nat) -> nat
    decreases count,
{
    if count == 0 {
        0
    } else {
        clear_count(s, start, from, (count - 1) as nat) + if is_flagged(s, start, from + count - 1) {
            0nat
        } else {
            1nat
        }
    }
}

/// Every text of the lines fits its field.
pub open spec fn lines_fit(lines: Seq<ConfigLine>) -> bool {
    forall|k: int|
        0 <= k < lines.len() ==> encode_utf8(#[trigger] lines[k].name@).len() <= MAX_NAME_LENGTH
            && encode_utf8(lines[k].uri@).len() <= MAX_URI_LENGTH
}

/// The account after lines `lines` were added from line `index`: their records
/// written in place, their flags set in the bitmask of added lines, and the count of
/// lines raised by the number of flags that were clear.
pub open spec fn with_added_lines(s: Seq<u8>, items: int, index: int, lines: Seq<ConfigLine>) -> Seq<
    u8,
> {
    let pos = line_offset(index);
    let recs = line_records(lines);
    let written = s.subrange(0, pos) + recs + s.subrange(pos + recs.len(), s.len() as int);
    let flagged = flag_lines(written, added_mask_start(items), index, lines.len());
    let count = (le_u32_at(s, CONFIG_ARRAY_START as int) + clear_count(
        written,
        added_mask_start(items),
        index,
        lines.len(),
    )) % 4294967296;
    flagged.subrange(0, CONFIG_ARRAY_START as int) + le_u32_bytes(count) + flagged.subrange(
        CONFIG_ARRAY_START + 4,
        s.len() as int,
    )
}

/// The bytes that adding `count` lines from line `index` writes are inside the account.
pub open spec fn add_fits(len: int, items: int, index: int, count: int) -> bool {
    &&& line_offset(index) + count * CONFIG_LINE_SIZE <= len
    &&& count > 0 ==> added_mask_start(items) + (index + count - 1) / 8 < len
}

/// Setting the flags of a run of lines keeps every other flag and the length.
pub proof fn lemma_flag_lines(s: Seq<u8>, start: int, from: int, count: nat, j: int)
    requires
        0 <= start,
        0 <= from,
        0 <= j,
        count > 0 ==> start + (from + count - 1) / 8 < s.len(),
        start + j / 8 < s.len(),
    ensures
        flag_lines(s, start, from, count).len() == s.len(),
        is_flagged(flag_lines(s, start, from, count), start, j) == ((from <= j < from + count)
            || is_flagged(s, start, j)),
    decreases count,
{
    if count > 0 {
        let c1 = (count - 1) as nat;
        if c1 > 0 {
            assert((from + c1 - 1) / 8 <= (from + count - 1) / 8);
        }
        lemma_flag_lines(s, start, from, c1, j);
        lemma_flag_lines(s, start, from, c1, from + count - 1);
        lemma_with_flag(flag_lines(s, start, from, c1), start, from + count - 1, j);
    }
}

/// What taking the config line for the token numbered `mint_number + 1` gives back
/// (`r`) and leaves in the account (`new`), starting the search at line `index`.
pub open spec fn config_line_outcome(
    a: CandyMachine,
    old: Seq<u8>,
    new: Seq<u8>,
    index: int,
    mint_number: int,
    r: Result<ConfigLine, ErrorCode>,
) -> bool {
    match a.data.hidden_settings {
        Some(hs) => {
            &&& new == old
            &&& r matches Ok(line) && line.name@ == hidden_name(hs.name@, (mint_number + 1) as nat)
                && line.uri@ == hs.uri@
        },
        None => {
            let items = a.data.items_available as int;
            let c = chosen_line(old, items, index);
            if c < 0 {
                &&& new == old
                &&& r == Err::<ConfigLine, ErrorCode>(ErrorCode::CannotFindUsableConfigLine)
            } else {
                &&& new == with_flag(old, minted_mask_start(items), c)
                &&& match stored_line(new, c) {
                    Ok((name, uri)) => r matches Ok(line) && line.name@ == name && line.uri@ == uri,
                    Err(e) => r == Err::<ConfigLine, ErrorCode>(e),
                }
            }
        },
    }
}

/// The count of config lines stored in the account, little-endian at `CONFIG_ARRAY_START`.
pub fn get_config_count(data: &Vec<u8>) -> (r: Result<usize, ErrorCode>)
    requires
        data@.len() >= CONFIG_ARRAY_START + 4,
    ensures
        r == Ok::<usize, ErrorCode>(le_u32_at(data@, CONFIG_ARRAY_START as int) as usize),
{
    let b0 = data[CONFIG_ARRAY_START] as usize;
    let b1 = data[CONFIG_ARRAY_START + 1] as usize;
    let b2 = data[CONFIG_ARRAY_START + 2] as usize;
    let b3 = data[CONFIG_ARRAY_START + 3] as usize;
    Ok(b0 + 256 * b1 + 65536 * b2 + 16777216 * b3)
}

/// Copies the text stored, zero-padded, in `data[lo..hi]`.
fn read_field(data: &Vec<u8>, lo: usize, hi: usize) -> (v: Vec<u8>)
    requires
        lo <= hi <= data@.len(),
    ensures
        v@ == field_bytes(data@, lo as int, hi as int),
{
    let mut v: Vec<u8> = Vec::new();
    let mut i = lo;
    while i < hi
        invariant
            lo <= i <= hi <= data@.len(),
            v@ == data@.subrange(lo as int, i as int),
            field_end(data@, lo as int, hi as int) == field_end(data@, i as int, hi as int),
        ensures
            v@ == field_bytes(data@, lo as int, hi as int),
        decreases hi - i,
    {
        if data[i] == 0 {
            break;
        }
        v.push(data[i]);
        i = i + 1;
        assert(v@ =~= data@.subrange(lo as int, i as int));
    }
    v
}

/// Whether line `j` is flagged in the bitmask at `start`.
fn line_flagged(account: &Vec<u8>, start: usize, j: usize) -> (f: bool)
    requires
        start + j / 8 < account@.len(),
    ensures
        f == is_flagged(account@, start as int, j as int),
{
    let mask: u8 = 1u8 << ((7 - j % 8) as u8);
    assert(mask == line_mask(j as int));
    assert(account.len() == account@.len());
    account[start + j / 8] & mask != 0
}

/// Whether taking a config line from line `index` of an account with
/// `items_available` lines reads only bytes inside the account (`config_line_fits`):
/// what a caller tests before it hands the account to `get_config_line`.
pub fn config_line_fits_in(account: &Vec<u8>, items_available: u64, index: usize) -> (b: bool)
    ensures
        b == config_line_fits(account@, items_available as int, index as int),
{
    let ghost s = account@;
    let ghost n = items_available as int;
    if items_available as u128 > usize::MAX as u128 {
        return false;
    }
    let items = items_available as usize;
    let wide = items_available as u128;
    assert(wide * 240 <= 240 * 0xffff_ffff_ffff_ffffu128) by (nonlinear_arith)
        requires
            wide <= 0xffff_ffff_ffff_ffffu128,
    ;
    let start_wide: u128 = CONFIG_ARRAY_START as u128 + 4 + wide * (CONFIG_LINE_SIZE as u128) + 4 + wide
        / 8 + 4;
    if start_wide > usize::MAX as u128 {
        return false;
    }
    let start = start_wide as usize;
    let ghost g = start as int;
    assert(g == minted_mask_start(n));
    let len = account.len();
    let mut j = index;
    let mut found = false;
    while j < items && !found
        invariant
            s == account@,
            len == s.len(),
            g == start,
            g == minted_mask_start(n),
            n == items,
            n == items_available,
            index <= j,
            index < items ==> j <= items,
            index >= items ==> j == index,
            found ==> j < items && !is_flagged(s, g, j as int) && g + j / 8 < len,
            reached_forward(s, g, index as int, j as int),
            index < j ==> g + (j - 1) / 8 < len,
        decreases items - j + (if found { 0int } else { 1int }),
    {
        if len <= start || j / 8 >= len - start {
            assert(!search_fits(s, n, index as int, true));
            return false;
        }
        if line_flagged(account, start, j) {
            j = j + 1;
        } else {
            found = true;
        }
    }
    if found {
        proof {
            lemma_first_free_is(s, g, index as int, n, j as int);
            assert forall|k: int|
                index <= k < n && #[trigger] reached_forward(s, g, index as int, k) implies g + k / 8
                < len by {
                if k > j {
                    assert(is_flagged(s, g, j as int));
                }
                assert(k / 8 <= j / 8);
            }
        }
    } else if index >= items {
        proof {
            assert(first_free(s, g, index as int, n) == n);
        }
        return true;
    } else {
        proof {
            lemma_first_free_is(s, g, index as int, n, n);
            assert forall|k: int|
                index <= k < n && #[trigger] reached_forward(s, g, index as int, k) implies g + k / 8
                < len by {
                assert(k / 8 <= (j - 1) / 8);
            }
        }
        let mut i = index;
        let mut found_back = false;
        let mut exhausted = false;
        while !found_back && !exhausted
            invariant
                s == account@,
                len == s.len(),
                g == start,
                g == minted_mask_start(n),
                n == items,
                n == items_available,
                first_free(s, g, index as int, n) == n,
                index < items,
                i <= index,
                found_back ==> !is_flagged(s, g, i as int) && g + i / 8 < len,
                exhausted ==> i == 0 && is_flagged(s, g, 0) && g < len && !found_back,
                reached_backward(s, g, index as int, i as int),
                i < index ==> g + index / 8 < len,
            decreases (if found_back || exhausted { 0int } else { i + 1 }),
        {
            if len <= start || i / 8 >= len - start {
                assert(!search_fits(s, n, index as int, false));
                return false;
            }
            assert(i / 8 <= index / 8);
            if !line_flagged(account, start, i) {
                found_back = true;
            } else if i == 0 {
                exhausted = true;
            } else {
                i = i - 1;
            }
        }
        if found_back {
            proof {
                lemma_last_free_is(s, g, index as int, i as int);
            }
        } else {
            proof {
                lemma_last_free_is(s, g, index as int, -1);
            }
        }
        assert forall|k: int|
            0 <= k <= index && #[trigger] reached_backward(s, g, index as int, k) implies g + k / 8
            < len by {
            if k < i {
                assert(is_flagged(s, g, i as int));
            }
            assert(k / 8 <= index / 8);
        }
    }
    true
}

/// The config line that the next token takes. Under hidden settings every token
/// shares one name, numbered with `mint_number + 1`, and one URI. Otherwise the line
/// is searched for forward from `index` in the bitmask of minted lines, then
/// backward, marked as minted, and read from the account.
pub fn get_config_line(a: &CandyMachine, arr: &mut Vec<u8>, index: usize, mint_number: u64) -> (r:
    Result<ConfigLine, ErrorCode>)
    requires
        a.data.hidden_settings is Some ==> mint_number < u64::MAX,
        a.data.hidden_settings is None ==> config_line_fits(
            old(arr)@,
            a.data.items_available as int,
            index as int,
        ),
    ensures
        config_line_outcome(*a, old(arr)@, final(arr)@, index as int, mint_number as int, r),
{
    if let Some(hs) = &a.data.hidden_settings {
        let mut name = hs.name.clone();
        name.append("#");
        let number = decimal_string(mint_number + 1);
        name.append(number.as_str());
        proof {
            reveal_strlit("#");
            assert(name@ =~= hidden_name(hs.name@, (mint_number + 1) as nat));
        }
        return Ok(ConfigLine { name, uri: hs.uri.clone() });
    }
    let ghost s0 = arr@;
    let items = a.data.items_available as usize;
    let ghost start = minted_mask_start(items as int);
    let (mut index_to_use, good) = match get_good_index(arr, items, index, true) {
        Ok(p) => p,
        Err(e) => return Err(e),
    };
    proof {
        lemma_search_outcome_free(s0, arr@, start, items as int, index as int, true, index_to_use as int, good);
    }
    if !good {
        let ghost s1 = arr@;
        let (index_to_use_new, good_new) = match get_good_index(arr, items, index, false) {
            Ok(p) => p,
            Err(e) => return Err(e),
        };
        proof {
            lemma_search_outcome_free(s1, arr@, start, items as int, index as int, false, index_to_use_new as int, good_new);
        }
        index_to_use = index_to_use_new;
        if !good_new {
            return Err(ErrorCode::CannotFindUsableConfigLine);
        }
    }
    let ghost c = index_to_use as int;
    assert(c == chosen_line(s0, items as int, index as int));
    assert(arr@ == with_flag(s0, start, c));
    proof {
        assert(arr.len() == arr@.len());
        lemma_line_within(c, items as int);
        if good {
            assert(reached_forward(s0, start, index as int, c));
        } else {
            assert(reached_backward(s0, start, index as int, c));
        }
        assert(arr@[line_offset(c)] == s0[line_offset(c)]);
    }
    let base = CONFIG_ARRAY_START + 4 + index_to_use * CONFIG_LINE_SIZE;
    if arr[base] == 1 {
        return Err(ErrorCode::CannotFindUsableConfigLine);
    }
    let name_vec = read_field(arr, base + 4, base + 4 + MAX_NAME_LENGTH);
    let uri_vec = read_field(arr, base + 8 + MAX_NAME_LENGTH, base + 8 + MAX_NAME_LENGTH + MAX_URI_LENGTH);
    let name = match utf8_string(name_vec) {
        Some(val) => val,
        None => return Err(ErrorCode::InvalidString),
    };
    let uri = match utf8_string(uri_vec) {
        Some(val) => val,
        None => return Err(ErrorCode::InvalidString),
    };
    Ok(ConfigLine { name, uri })
}


/// Appends the little-endian bytes of `v`.
fn push_le_u32(out: &mut Vec<u8>, v: u32)
    ensures
        final(out)@ == old(out)@ + le_u32_bytes(v as int),
{
    out.push((v % 256) as u8);
    out.push(((v / 256) % 256) as u8);
    out.push(((v / 65536) % 256) as u8);
    out.push(((v / 16777216) % 256) as u8);
    assert(final(out)@ =~= old(out)@ + le_u32_bytes(v as int));
}

/// Appends `text` padded with zero bytes to `width` bytes.
fn push_padded(out: &mut Vec<u8>, text: &[u8], width: usize)
    requires
        text@.len() <= width,
    ensures
        final(out)@ == old(out)@ + text@ + zeros(width - text@.len()),
{
    let ghost o = out@;
    let mut k: usize = 0;
    while k < text.len()
        invariant
            k <= text@.len(),
            out@ == o + text@.subrange(0, k as int),
        decreases text@.len() - k,
    {
        out.push(text[k]);
        k = k + 1;
        assert(out@ =~= o + text@.subrange(0, k as int));
    }
    assert(text@.subrange(0, text@.len() as int) =~= text@);
    let pad = width - text.len();
    let mut z: usize = 0;
    while z < pad
        invariant
            z <= pad,
            pad == width - text@.len(),
            out@ == o + text@ + zeros(z as int),
        decreases pad - z,
    {
        out.push(0u8);
        z = z + 1;
        assert(out@ =~= o + text@ + zeros(z as int));
    }
}

/// The stored form of `lines`.
fn serialize_lines(lines: &Vec<ConfigLine>) -> (out: Vec<u8>)
    requires
        lines_fit(lines@),
    ensures
        out@ == line_records(lines@),
        out@.len() == lines@.len() * CONFIG_LINE_SIZE,
{
    let mut out: Vec<u8> = Vec::new();
    let mut j: usize = 0;
    while j < lines.len()
        invariant
            j <= lines@.len(),
            lines_fit(lines@),
            out@ == line_records(lines@.subrange(0, j as int)),
            out@.len() == j * CONFIG_LINE_SIZE,
        decreases lines@.len() - j,
    {
        let line = &lines[j];
        let name = line.name.as_str().as_bytes();
        let uri = line.uri.as_str().as_bytes();
        assert(encode_utf8(lines@[j as int].name@).len() <= MAX_NAME_LENGTH);
        push_le_u32(&mut out, MAX_NAME_LENGTH as u32);
        push_padded(&mut out, name, MAX_NAME_LENGTH);
        push_le_u32(&mut out, MAX_URI_LENGTH as u32);
        push_padded(&mut out, uri, MAX_URI_LENGTH);
        proof {
            let next = lines@.subrange(0, j + 1);
            assert(next.drop_last() =~= lines@.subrange(0, j as int));
            assert(next.last() == lines@[j as int]);
            assert(out@ =~= line_records(next));
            assert(j * CONFIG_LINE_SIZE + CONFIG_LINE_SIZE == (j + 1) * CONFIG_LINE_SIZE)
                by (nonlinear_arith);
        }
        j = j + 1;
    }
    assert(lines@.subrange(0, lines@.len() as int) =~= lines@);
    out
}

/// Overwrites `data[pos .. pos + bytes.len()]` with `bytes`.
fn write_bytes(data: &mut Vec<u8>, pos: usize, bytes: &Vec<u8>)
    requires
        pos + bytes@.len() <= old(data)@.len(),
    ensures
        final(data)@ == old(data)@.subrange(0, pos as int) + bytes@ + old(data)@.subrange(
            pos + bytes@.len(),
            old(data)@.len() as int,
        ),
{
    let ghost d0 = data@;
    assert(data.len() == data@.len());
    let mut k: usize = 0;
    while k < bytes.len()
        invariant
            k <= bytes@.len(),
            pos + bytes@.len() <= d0.len(),
            d0.len() <= usize::MAX,
            data@.len() == d0.len(),
            forall|j: int|
                0 <= j < d0.len() ==> #[trigger] data@[j] == if pos <= j < pos + k {
                    bytes@[j - pos]
                } else {
                    d0[j]
                },
        decreases bytes@.len() - k,
    {
        data.set(pos + k, bytes[k]);
        k = k + 1;
    }
    assert(data@ =~= d0.subrange(0, pos as int) + bytes@ + d0.subrange(
        pos + bytes@.len(),
        d0.len() as int,
    ));
}

/// Sets the flags of lines `index .. index + n` in the bitmask of added lines at
/// `bit_mask_vec_start`, and gives back `count` raised by the number of flags that
/// were clear.
fn flag_added_lines(
    data: &mut Vec<u8>,
    bit_mask_vec_start: usize,
    index: usize,
    n: usize,
    count: usize,
) -> (r: Result<usize, ErrorCode>)
    requires
        n > 0 ==> bit_mask_vec_start + (index + n - 1) / 8 < old(data)@.len(),
        count + n <= usize::MAX,
        index + n <= usize::MAX,
    ensures
        final(data)@.len() == old(data)@.len(),
        r matches Ok(c) && c == count + clear_count(
            old(data)@,
            bit_mask_vec_start as int,
            index as int,
            n as nat,
        ),
        final(data)@ == flag_lines(old(data)@, bit_mask_vec_start as int, index as int, n as nat),
{
    let ghost written = data@;
    let ghost mstart = bit_mask_vec_start as int;
    let mut new_count = count;
    let mut i: usize = 0;
    while i < n
        invariant
            i <= n,
            mstart == bit_mask_vec_start,
            n > 0 ==> mstart + (index + n - 1) / 8 < written.len(),
            count + n <= usize::MAX,
            index + n <= usize::MAX,
            data@.len() == written.len(),
            data@ == flag_lines(written, mstart, index as int, i as nat),
            new_count == count + clear_count(written, mstart, index as int, i as nat),
            new_count <= count + i,
        decreases n - i,
    {
        let ghost cur = data@;
        let ghost line = index + i;
        proof {
            assert(line / 8 <= (index + n - 1) / 8);
            lemma_flag_lines(written, mstart, index as int, i as nat, line);
            assert(data.len() == data@.len());
        }
        let position = match index.checked_add(i) {
            Some(p) => p,
            None => return Err(ErrorCode::NumericalOverflowError),
        };
        let q = match position.checked_div(8) {
            Some(v) => v,
            None => return Err(ErrorCode::NumericalOverflowError),
        };
        let my_position_in_vec = bit_mask_vec_start + q;
        let rem = match position.checked_rem(8) {
            Some(v) => v,
            None => return Err(ErrorCode::NumericalOverflowError),
        };
        let position_from_right = 7 - rem;
        let mask: u8 = 1u8 << (position_from_right as u8);
        let old_value_in_vec = data[my_position_in_vec];
        let v = data[my_position_in_vec] | mask;
        data.set(my_position_in_vec, v);
        proof {
            assert(mask == line_mask(line));
            assert(data@ =~= with_flag(cur, mstart, line));
            lemma_set_flag(old_value_in_vec, position_from_right as u8, position_from_right as u8);
            assert((old_value_in_vec != v) == !is_flagged(written, mstart, line));
        }
        if old_value_in_vec != data[my_position_in_vec] {
            new_count = match new_count.checked_add(1) {
                Some(c) => c,
                None => return Err(ErrorCode::NumericalOverflowError),
            };
        }
        i = i + 1;
    }
    Ok(new_count)
}

/// Adds `config_lines` as lines `index ..` of the candy machine: refuses an `index`
/// past the last line and a machine with hidden settings; otherwise writes the
/// lines' records, sets their flags in the bitmask of added lines and raises the
/// count of lines by the number of flags that were clear.
pub fn add_config_lines(
    candy_machine: &CandyMachine,
    data: &mut Vec<u8>,
    index: u32,
    config_lines: &Vec<ConfigLine>,
) -> (r: Result<(), ErrorCode>)
    requires
        old(data)@.len() >= CONFIG_ARRAY_START + 4,
        index < (#[verifier::truncate] (candy_machine.data.items_available as u32))
            && candy_machine.data.hidden_settings is None ==> {
            &&& candy_machine.data.items_available <= usize::MAX
            &&& added_mask_start(candy_machine.data.items_available as int) <= usize::MAX
            &&& lines_fit(config_lines@)
            &&& le_u32_at(old(data)@, CONFIG_ARRAY_START as int) + config_lines@.len() <= usize::MAX
            &&& add_fits(
                old(data)@.len() as int,
                candy_machine.data.items_available as int,
                index as int,
                config_lines@.len() as int,
            )
        },
    ensures
        index >= (#[verifier::truncate] (candy_machine.data.items_available as u32)) ==> {
            &&& r == Err::<(), ErrorCode>(ErrorCode::IndexGreaterThanLength)
            &&& final(data)@ == old(data)@
        },
        index < (#[verifier::truncate] (candy_machine.data.items_available as u32))
            && candy_machine.data.hidden_settings is Some ==> {
            &&& r == Err::<(), ErrorCode>(ErrorCode::HiddenSettingsConfigsDoNotHaveConfigLines)
            &&& final(data)@ == old(data)@
        },
        index < (#[verifier::truncate] (candy_machine.data.items_available as u32))
            && candy_machine.data.hidden_settings is None ==> {
            &&& r == Ok::<(), ErrorCode>(())
            &&& final(data)@ == with_added_lines(
                old(data)@,
                candy_machine.data.items_available as int,
                index as int,
                config_lines@,
            )
        },
{
    let current_count = match get_config_count(data) {
        Ok(c) => c,
        Err(e) => return Err(e),
    };
    if index >= (#[verifier::truncate] (candy_machine.data.items_available as u32)) {
        return Err(ErrorCode::IndexGreaterThanLength);
    }
    if candy_machine.data.hidden_settings.is_some() {
        return Err(ErrorCode::HiddenSettingsConfigsDoNotHaveConfigLines);
    }
    let ghost d0 = data@;
    let ghost items = candy_machine.data.items_available as int;
    let ghost n = config_lines@.len();
    let serialized = serialize_lines(config_lines);
    proof {
        assert(data.len() == data@.len());
        assert(n * CONFIG_LINE_SIZE >= 0) by (nonlinear_arith)
            requires
                n >= 0,
                CONFIG_LINE_SIZE == 240,
        ;
        assert(index * CONFIG_LINE_SIZE >= 0) by (nonlinear_arith)
            requires
                index >= 0,
                CONFIG_LINE_SIZE == 240,
        ;
    }
    let position = CONFIG_ARRAY_START + 4 + (index as usize) * CONFIG_LINE_SIZE;
    write_bytes(data, position, &serialized);
    let ghost written = data@;
    let items_usize = candy_machine.data.items_available as usize;
    let ghost mstart = added_mask_start(items);
    proof {
        assert(items * CONFIG_LINE_SIZE >= 0) by (nonlinear_arith)
            requires
                items >= 0,
                CONFIG_LINE_SIZE == 240,
        ;
    }
    let bit_mask_vec_start = CONFIG_ARRAY_START + 4 + items_usize * CONFIG_LINE_SIZE + 4;
    assert(bit_mask_vec_start == mstart);
    assert(index + n <= usize::MAX) by (nonlinear_arith)
        requires
            line_offset(index as int) + n * CONFIG_LINE_SIZE <= d0.len(),
            d0.len() <= usize::MAX,
            CONFIG_LINE_SIZE == 240,
            line_offset(index as int) == CONFIG_ARRAY_START + 4 + index * CONFIG_LINE_SIZE,
            CONFIG_ARRAY_START >= 0,
    ;
    let new_count = match flag_added_lines(data, bit_mask_vec_start, index as usize, config_lines.len(), current_count) {
        Ok(c) => c,
        Err(e) => return Err(e),
    };
    let ghost flagged = data@;
    let ghost cleared = clear_count(written, mstart, index as int, n as nat);
    assert(new_count == current_count + cleared);
    let c = #[verifier::truncate] (new_count as u32);
    proof {
        let wide = new_count as u64;
        assert(c == #[verifier::truncate] (wide as u32)) by (bit_vector)
            requires
                c == new_count as u32,
                wide == new_count as u64,
        ;
        assert(c == wide % 0x1_0000_0000) by (bit_vector)
            requires
                c == wide as u32,
        ;
    }
    data.set(CONFIG_ARRAY_START, (c % 256) as u8);
    data.set(CONFIG_ARRAY_START + 1, ((c / 256) % 256) as u8);
    data.set(CONFIG_ARRAY_START + 2, ((c / 65536) % 256) as u8);
    data.set(CONFIG_ARRAY_START + 3, ((c / 16777216) % 256) as u8);
    assert(serialized@.len() == n * CONFIG_LINE_SIZE);
    assert(position == line_offset(index as int));
    assert(written == d0.subrange(0, position as int) + line_records(config_lines@) + d0.subrange(
        position + line_records(config_lines@).len(),
        d0.len() as int,
    ));
    assert(c as int == (le_u32_at(d0, CONFIG_ARRAY_START as int) + cleared) % 4294967296);
    assert(data@ =~= flagged.subrange(0, CONFIG_ARRAY_START as int) + le_u32_bytes(c as int)
        + flagged.subrange(CONFIG_ARRAY_START + 4, d0.len() as int));
    assert(data@ =~= with_added_lines(d0, items, index as int, config_lines@));
    Ok(())
}


/// Whether a text holds no NUL character.
pub open spec fn has_no_nul(t: Seq<char>) -> bool {
    forall|i: int| 0 <= i < t.len() ==> (t[i] as u32) != 0
}

/// The UTF-8 encoding of a scalar other than NUL holds no zero byte.
proof fn lemma_scalar_bytes_nonzero(v: u32)
    requires
        0 < v <= 0x10FFFF,
    ensures
        forall|j: int| 0 <= j < encode_scalar(v).len() ==> encode_scalar(v)[j] != 0,
{
    assert(0 < v <= 0x7F ==> (v & 0x7F) as u8 != 0u8) by (bit_vector);
    assert(forall|y: u8| #![trigger (0x80u8 | y)] (0x80u8 | y) != 0u8) by (bit_vector);
    assert(forall|y: u8| #![trigger (0xC0u8 | y)] (0xC0u8 | y) != 0u8) by (bit_vector);
    assert(forall|y: u8| #![trigger (0xE0u8 | y)] (0xE0u8 | y) != 0u8) by (bit_vector);
    assert(forall|y: u8| #![trigger (0xF0u8 | y)] (0xF0u8 | y) != 0u8) by (bit_vector);
}

/// The UTF-8 encoding of a text without NUL holds no zero byte.
proof fn lemma_encode_no_zero(t: Seq<char>)
    requires
        has_no_nul(t),
    ensures
        forall|j: int| 0 <= j < encode_utf8(t).len() ==> encode_utf8(t)[j] != 0,
    decreases t.len(),
{
    if t.len() > 0 {
        let c = t[0] as u32;
        vstd::utf8::char_is_scalar(t[0]);
        assert(0 < c <= 0x10FFFF);
        lemma_scalar_bytes_nonzero(c);
        assert(has_no_nul(t.drop_first()));
        lemma_encode_no_zero(t.drop_first());
        let e = encode_utf8(t);
        assert(e == encode_scalar(c) + encode_utf8(t.drop_first()));
        assert forall|j: int| 0 <= j < e.len() implies e[j] != 0 by {
            if j < encode_scalar(c).len() {
            } else {
                assert(e[j] == encode_utf8(t.drop_first())[j - encode_scalar(c).len()]);
            }
        }
    }
}

/// Text without zero bytes, followed by a zero byte or by the end of its field, is
/// what the field holds from any of its positions `m` on.
proof fn lemma_field_holds_from(s: Seq<u8>, lo: int, hi: int, t: Seq<u8>, m: int)
    requires
        0 <= lo,
        0 <= m <= t.len(),
        lo + t.len() <= hi <= s.len(),
        s.subrange(lo, lo + t.len()) == t,
        forall|j: int| 0 <= j < t.len() ==> t[j] != 0,
        lo + t.len() < hi ==> s[lo + t.len()] == 0,
    ensures
        field_end(s, lo + m, hi) == lo + t.len(),
    decreases t.len() - m,
{
    if m < t.len() {
        lemma_field_holds_from(s, lo, hi, t, m + 1);
        assert(s[lo + m] == t[m]);
    }
}

/// Text without zero bytes, followed by a zero byte or by the end of its field, is
/// what the field holds.
proof fn lemma_field_holds(s: Seq<u8>, lo: int, hi: int, t: Seq<u8>)
    requires
        0 <= lo,
        lo + t.len() <= hi <= s.len(),
        s.subrange(lo, lo + t.len()) == t,
        forall|j: int| 0 <= j < t.len() ==> t[j] != 0,
        lo + t.len() < hi ==> s[lo + t.len()] == 0,
    ensures
        field_bytes(s, lo, hi) == t,
{
    lemma_field_holds_from(s, lo, hi, t, 0);
}

/// The records of a sequence of lines that fit are one per line, each
/// `CONFIG_LINE_SIZE` bytes long.
pub(crate) proof fn lemma_records(lines: Seq<ConfigLine>, k: int)
    requires
        lines_fit(lines),
        0 <= k < lines.len(),
    ensures
        line_records(lines).len() == lines.len() * CONFIG_LINE_SIZE,
        line_records(lines).subrange(k * CONFIG_LINE_SIZE, k * CONFIG_LINE_SIZE + CONFIG_LINE_SIZE)
            == line_record(encode_utf8(lines[k].name@), encode_utf8(lines[k].uri@)),
    decreases lines.len(),
{
    let n = lines.len() - 1;
    let front = lines.drop_last();
    assert forall|i: int| 0 <= i < front.len() implies encode_utf8(#[trigger] front[i].name@).len()
        <= MAX_NAME_LENGTH && encode_utf8(front[i].uri@).len() <= MAX_URI_LENGTH by {
        assert(front[i] == lines[i]);
    }
    assert(lines_fit(front));
    let last = line_record(encode_utf8(lines[n].name@), encode_utf8(lines[n].uri@));
    assert(lines.last() == lines[n]);
    assert(last.len() == CONFIG_LINE_SIZE);
    if n > 0 {
        lemma_records(front, if k < n { k } else { 0 });
    } else {
        assert(line_records(front) =~= seq![]);
    }
    assert(line_records(front).len() == n * CONFIG_LINE_SIZE);
    assert(n * CONFIG_LINE_SIZE + CONFIG_LINE_SIZE == lines.len() * CONFIG_LINE_SIZE) by (nonlinear_arith)
        requires n == lines.len() - 1;
    if k < n {
        assert(k * CONFIG_LINE_SIZE + CONFIG_LINE_SIZE <= n * CONFIG_LINE_SIZE) by (nonlinear_arith)
            requires
                k < n,
        ;
        assert(front[k] == lines[k]);
        assert(line_records(lines).subrange(k * CONFIG_LINE_SIZE, k * CONFIG_LINE_SIZE + CONFIG_LINE_SIZE)
            =~= line_records(front).subrange(k * CONFIG_LINE_SIZE, k * CONFIG_LINE_SIZE + CONFIG_LINE_SIZE));
    } else {
        assert(line_records(lines).subrange(k * CONFIG_LINE_SIZE, k * CONFIG_LINE_SIZE + CONFIG_LINE_SIZE)
            =~= last);
    }
}

/// Setting flags of a bitmask leaves the bytes before it alone.
proof fn lemma_flag_lines_below(s: Seq<u8>, start: int, from: int, count: nat, j: int)
    requires
        0 <= from,
        0 <= j < start,
        count > 0 ==> start + (from + count - 1) / 8 < s.len(),
    ensures
        flag_lines(s, start, from, count)[j] == s[j],
        flag_lines(s, start, from, count).len() == s.len(),
    decreases count,
{
    if count > 0 {
        let c1 = (count - 1) as nat;
        if c1 > 0 {
            assert((from + c1 - 1) / 8 <= (from + count - 1) / 8);
        }
        lemma_flag_lines_below(s, start, from, c1, j);
    }
}

/// A config line whose record lies intact in the account reads back as its name and
/// URI, as long as they hold no NUL character.
#[verifier::spinoff_prover]
proof fn lemma_stored_record(u: Seq<u8>, line: int, name_text: Seq<char>, uri_text: Seq<char>)
    requires
        0 <= line,
        line_offset(line) + CONFIG_LINE_SIZE <= u.len(),
        encode_utf8(name_text).len() <= MAX_NAME_LENGTH,
        encode_utf8(uri_text).len() <= MAX_URI_LENGTH,
        has_no_nul(name_text),
        has_no_nul(uri_text),
        forall|j: int|
            line_offset(line) <= j < line_offset(line) + CONFIG_LINE_SIZE ==> #[trigger] u[j]
                == line_record(encode_utf8(name_text), encode_utf8(uri_text))[j - line_offset(
                line,
            )],
    ensures
        stored_line(u, line) == Ok::<(Seq<char>, Seq<char>), ErrorCode>((name_text, uri_text)),
{
    let base = line_offset(line);
    let name = encode_utf8(name_text);
    let uri = encode_utf8(uri_text);
    let rec = line_record(name, uri);
    assert(line * CONFIG_LINE_SIZE >= 0) by (nonlinear_arith)
        requires
            line >= 0,
    ;
    lemma_encode_no_zero(name_text);
    lemma_encode_no_zero(uri_text);
    assert(u.subrange(base + 4, base + 4 + name.len()) =~= name) by {
        assert forall|j: int| 0 <= j < name.len() implies u[base + 4 + j] == name[j] by {
            assert(u[base + 4 + j] == rec[4 + j]);
        }
    }
    if name.len() < MAX_NAME_LENGTH {
        assert(u[base + 4 + name.len()] == rec[4 + name.len() as int]);
    }
    lemma_field_holds(u, base + 4, base + 4 + MAX_NAME_LENGTH, name);
    let ulo = base + 8 + MAX_NAME_LENGTH;
    assert(u.subrange(ulo, ulo + uri.len()) =~= uri) by {
        assert forall|j: int| 0 <= j < uri.len() implies u[ulo + j] == uri[j] by {
            assert(u[ulo + j] == rec[8 + MAX_NAME_LENGTH + j]);
        }
    }
    if uri.len() < MAX_URI_LENGTH {
        assert(u[ulo + uri.len()] == rec[8 + MAX_NAME_LENGTH + uri.len() as int]);
    }
    lemma_field_holds(u, ulo, ulo + MAX_URI_LENGTH, uri);
    assert(u[base] == rec[0]);
    encode_utf8_valid_utf8(name_text);
    encode_utf8_valid_utf8(uri_text);
    encode_utf8_decode_utf8(name_text);
    encode_utf8_decode_utf8(uri_text);
}

/// A config line that was added is what minting it reads back: once lines were added
/// from line `index` (within the machine's lines), minting line `index + k`, whose
/// minted flag lies in the account, gives the name and URI of the `k`-th of them, as
/// long as they hold no NUL character.
pub proof fn lemma_added_line_reads_back(
    s: Seq<u8>,
    items: int,
    index: int,
    lines: Seq<ConfigLine>,
    k: int,
)
    requires
        s.len() >= CONFIG_ARRAY_START + 4,
        0 <= index,
        0 <= k < lines.len(),
        index + lines.len() <= items,
        lines_fit(lines),
        add_fits(s.len() as int, items, index, lines.len() as int),
        minted_mask_start(items) + (index + k) / 8 < s.len(),
        has_no_nul(lines[k].name@),
        has_no_nul(lines[k].uri@),
    ensures
        stored_line(
            with_flag(with_added_lines(s, items, index, lines), minted_mask_start(items), index + k),
            index + k,
        ) == Ok::<(Seq<char>, Seq<char>), ErrorCode>((lines[k].name@, lines[k].uri@)),
{
    let n = lines.len();
    let pos = line_offset(index);
    let recs = line_records(lines);
    lemma_records(lines, k);
    let written = s.subrange(0, pos) + recs + s.subrange(pos + recs.len(), s.len() as int);
    let astart = added_mask_start(items);
    let flagged = flag_lines(written, astart, index, n);
    let t = with_added_lines(s, items, index, lines);
    let ms = minted_mask_start(items);
    let u = with_flag(t, ms, index + k);
    let line = index + k;
    let base = line_offset(line);
    let name = encode_utf8(lines[k].name@);
    let uri = encode_utf8(lines[k].uri@);
    let rec = line_record(name, uri);
    assert(base == pos + k * CONFIG_LINE_SIZE) by (nonlinear_arith)
        requires
            base == CONFIG_ARRAY_START + 4 + (index + k) * CONFIG_LINE_SIZE,
            pos == CONFIG_ARRAY_START + 4 + index * CONFIG_LINE_SIZE,
    ;
    lemma_line_within(line, items);
    assert(line + 1 <= items);
    assert(n > 0);
    assert(astart + (index + n - 1) / 8 < s.len());
    assert(written.len() == s.len());
    assert(ms + line / 8 < s.len());
    assert((k + 1) * CONFIG_LINE_SIZE <= n * CONFIG_LINE_SIZE) by (nonlinear_arith)
        requires
            k + 1 <= n,
    ;
    assert(k * CONFIG_LINE_SIZE + CONFIG_LINE_SIZE == (k + 1) * CONFIG_LINE_SIZE) by (nonlinear_arith);
    assert(recs.len() == n * CONFIG_LINE_SIZE);
    assert(base + CONFIG_LINE_SIZE <= pos + recs.len());
    assert(base + CONFIG_LINE_SIZE <= added_mask_len_offset(items));
    assert(pos >= CONFIG_ARRAY_START + 4);
    // The bytes of the line's record are left as written.
    assert forall|j: int| base <= j < base + CONFIG_LINE_SIZE implies #[trigger] u[j] == rec[j - base] by {
        lemma_flag_lines_below(written, astart, index, n, j);
        assert(t[j] == flagged[j]);
        assert(written[j] == recs[j - pos]);
        assert(recs[j - pos] == recs.subrange(
            k * CONFIG_LINE_SIZE,
            k * CONFIG_LINE_SIZE + CONFIG_LINE_SIZE,
        )[j - base]);
    }
    lemma_flag_lines_below(written, astart, index, n, 0);
    assert(t.len() == s.len());
    assert(u.len() == s.len());
    lemma_stored_record(u, line, lines[k].name@, lines[k].uri@);
}

/// Setting flags that are all set already changes nothing.
proof fn lemma_flag_lines_noop(s: Seq<u8>, start: int, from: int, count: nat)
    requires
        0 <= start,
        0 <= from,
        count > 0 ==> start + (from + count - 1) / 8 < s.len(),
        forall|j: int| from <= j < from + count ==> is_flagged(s, start, j),
    ensures
        flag_lines(s, start, from, count) == s,
    decreases count,
{
    if count > 0 {
        let c1 = (count - 1) as nat;
        if c1 > 0 {
            assert((from + c1 - 1) / 8 <= (from + count - 1) / 8);
        }
        lemma_flag_lines_noop(s, start, from, c1);
        crate::layout::lemma_with_flag_idempotent(s, start, from + count - 1);
    }
}

/// The bytes of a little-endian `u32` are the bytes it was read from.
proof fn lemma_le_u32_roundtrip(s: Seq<u8>, off: int)
    requires
        0 <= off,
        off + 4 <= s.len(),
    ensures
        0 <= le_u32_at(s, off) < 4294967296,
        le_u32_bytes(le_u32_at(s, off)) == s.subrange(off, off + 4),
{
    let b0 = s[off] as int;
    let b1 = s[off + 1] as int;
    let b2 = s[off + 2] as int;
    let b3 = s[off + 3] as int;
    let v = le_u32_at(s, off);
    assert(v == b0 + 256 * b1 + 65536 * b2 + 16777216 * b3);
    assert(v % 256 == b0 && (v / 256) % 256 == b1 && (v / 65536) % 256 == b2 && (v / 16777216)
        % 256 == b3) by (nonlinear_arith)
        requires
            v == b0 + 256 * b1 + 65536 * b2 + 16777216 * b3,
            0 <= b0 < 256,
            0 <= b1 < 256,
            0 <= b2 < 256,
            0 <= b3 < 256,
    ;
    assert(le_u32_bytes(v) =~= s.subrange(off, off + 4));
}

/// What adding lines leaves below the bitmasks and in them: the records in place,
/// the lines' flags set, and the account's length.
pub(crate) proof fn lemma_added_lines_in_place(s: Seq<u8>, items: int, index: int, lines: Seq<ConfigLine>)
    requires
        s.len() >= CONFIG_ARRAY_START + 4,
        0 <= index,
        index + lines.len() <= items,
        lines_fit(lines),
        add_fits(s.len() as int, items, index, lines.len() as int),
    ensures
        with_added_lines(s, items, index, lines).len() == s.len(),
        ({
            let t = with_added_lines(s, items, index, lines);
            let pos = line_offset(index);
            let recs = line_records(lines);
            &&& t.subrange(0, pos) + recs + t.subrange(pos + recs.len(), t.len() as int) == t
            &&& forall|j: int|
                index <= j < index + lines.len() ==> is_flagged(t, added_mask_start(items), j)
        }),
{
    let n = lines.len();
    let pos = line_offset(index);
    let recs = line_records(lines);
    let written = s.subrange(0, pos) + recs + s.subrange(pos + recs.len(), s.len() as int);
    let astart = added_mask_start(items);
    let flagged = flag_lines(written, astart, index, n);
    let t = with_added_lines(s, items, index, lines);
    if n == 0 {
        assert(recs =~= seq![]);
    } else {
        lemma_records(lines, 0);
    }
    assert(recs.len() == n * CONFIG_LINE_SIZE);
    assert(index * CONFIG_LINE_SIZE >= 0) by (nonlinear_arith)
        requires
            index >= 0,
    ;
    assert(pos + n * CONFIG_LINE_SIZE <= added_mask_len_offset(items)) by (nonlinear_arith)
        requires
            pos == CONFIG_ARRAY_START + 4 + index * CONFIG_LINE_SIZE,
            added_mask_len_offset(items) == CONFIG_ARRAY_START + 4 + items * CONFIG_LINE_SIZE,
            index + n <= items,
            CONFIG_LINE_SIZE == 240,
    ;
    assert(written.len() == s.len());
    lemma_flag_lines_below(written, astart, index, n, 0);
    assert(flagged.len() == s.len());
    assert(t.len() == s.len());
    let written2 = t.subrange(0, pos) + recs + t.subrange(pos + recs.len(), t.len() as int);
    assert forall|j: int| 0 <= j < t.len() implies #[trigger] written2[j] == t[j] by {
        if pos <= j < pos + recs.len() {
            lemma_flag_lines_below(written, astart, index, n, j);
            assert(t[j] == flagged[j]);
            assert(written[j] == recs[j - pos]);
        }
    }
    assert(written2 =~= t);
    assert forall|j: int| index <= j < index + n implies is_flagged(t, astart, j) by {
        assert(j / 8 <= (index + n - 1) / 8);
        lemma_flag_lines(written, astart, index, n, j);
        assert(t[astart + j / 8] == flagged[astart + j / 8]);
    }
}

/// Adding lines a second time changes nothing: their records are already written,
/// their flags already set, and the count of lines stays as it is.
#[verifier::spinoff_prover]
pub proof fn lemma_readding_lines_changes_nothing(
    s: Seq<u8>,
    items: int,
    index: int,
    lines: Seq<ConfigLine>,
)
    requires
        s.len() >= CONFIG_ARRAY_START + 4,
        0 <= index,
        index + lines.len() <= items,
        lines_fit(lines),
        add_fits(s.len() as int, items, index, lines.len() as int),
    ensures
        with_added_lines(with_added_lines(s, items, index, lines), items, index, lines)
            == with_added_lines(s, items, index, lines),
{
    let n = lines.len();
    let astart = added_mask_start(items);
    let t = with_added_lines(s, items, index, lines);
    lemma_added_lines_in_place(s, items, index, lines);
    lemma_flag_lines_noop(t, astart, index, n);
    lemma_clear_count_zero(t, astart, index, n);
    lemma_le_u32_roundtrip(t, CONFIG_ARRAY_START as int);
    assert(with_added_lines(t, items, index, lines) =~= t);
}

/// Lines whose flags are all set have no clear flag.
proof fn lemma_clear_count_zero(s: Seq<u8>, start: int, from: int, count: nat)
    requires
        forall|j: int| from <= j < from + count ==> is_flagged(s, start, j),
    ensures
        clear_count(s, start, from, count) == 0,
    decreases count,
{
    if count > 0 {
        lemma_clear_count_zero(s, start, from, (count - 1) as nat);
    }
}

/// The first free line is in its range and free.
proof fn lemma_first_free_free(s: Seq<u8>, start: int, from: int, end: int)
    requires
        from <= end,
    ensures
        from <= first_free(s, start, from, end) <= end,
        first_free(s, start, from, end) < end ==> !is_flagged(
            s,
            start,
            first_free(s, start, from, end),
        ),
    decreases end - from,
{
    if from < end && is_flagged(s, start, from) {
        lemma_first_free_free(s, start, from + 1, end);
    }
}

/// The last free line is in its range and free.
proof fn lemma_last_free_free(s: Seq<u8>, start: int, at: int)
    ensures
        -1 <= last_free(s, start, at) <= at || (at < -1 && last_free(s, start, at) == -1),
        last_free(s, start, at) >= 0 ==> !is_flagged(s, start, last_free(s, start, at)),
    decreases at + 1,
{
    if at >= 0 && is_flagged(s, start, at) {
        lemma_last_free_free(s, start, at - 1);
    }
}

/// Every line from `from` up to the first free line is flagged, and the first free
/// line comes no later than any free line of the range.
proof fn lemma_first_free_skips_flagged(s: Seq<u8>, start: int, from: int, end: int)
    requires
        from <= end,
    ensures
        forall|k: int| from <= k < first_free(s, start, from, end) ==> #[trigger] is_flagged(s, start, k),
        forall|k: int| from <= k < end && !#[trigger] is_flagged(s, start, k) ==> first_free(s, start, from, end) <= k,
    decreases end - from,
{
    if from < end && is_flagged(s, start, from) {
        lemma_first_free_skips_flagged(s, start, from + 1, end);
    }
}

/// Every line after the last free line, down from `at`, is flagged, and the last free
/// line comes no earlier than any free line at or before `at`.
proof fn lemma_last_free_skips_flagged(s: Seq<u8>, start: int, at: int)
    ensures
        forall|k: int| last_free(s, start, at) < k <= at ==> #[trigger] is_flagged(s, start, k),
        forall|k: int| 0 <= k <= at && !#[trigger] is_flagged(s, start, k) ==> k <= last_free(s, start, at),
    decreases at + 1,
{
    if at >= 0 && is_flagged(s, start, at) {
        lemma_last_free_skips_flagged(s, start, at - 1);
    }
}

/// Minting never misses a free line: when some line of the machine is not minted
/// yet, minting from any line of the machine takes one.
pub proof fn lemma_free_line_is_found(s: Seq<u8>, items: int, index: int, j: int)
    requires
        0 <= index < items,
        0 <= j < items,
        !is_flagged(s, minted_mask_start(items), j),
    ensures
        chosen_line(s, items, index) >= 0,
{
    let ms = minted_mask_start(items);
    lemma_first_free_skips_flagged(s, ms, index, items);
    lemma_last_free_skips_flagged(s, ms, index);
    lemma_first_free_free(s, ms, index, items);
}

/// Minting takes the nearest free line: the first one at or after the starting line,
/// or, when every line from there to the end is minted, the last one before it.
pub proof fn lemma_chosen_line_is_nearest(s: Seq<u8>, items: int, index: int)
    requires
        0 <= index,
        chosen_line(s, items, index) >= 0,
    ensures
        ({
            let c = chosen_line(s, items, index);
            let ms = minted_mask_start(items);
            &&& c < items
            &&& !is_flagged(s, ms, c)
            &&& c >= index ==> forall|k: int| index <= k < c ==> #[trigger] is_flagged(s, ms, k)
            &&& c < index ==> forall|k: int| c < k < items ==> #[trigger] is_flagged(s, ms, k)
        }),
{
    let ms = minted_mask_start(items);
    lemma_chosen_line_free(s, items, index);
    if index <= items {
        lemma_first_free_skips_flagged(s, ms, index, items);
        lemma_first_free_free(s, ms, index, items);
    }
    lemma_last_free_skips_flagged(s, ms, index);
    lemma_last_free_free(s, ms, index);
}

/// The line that minting takes is one of the machine's lines, and was not minted.
pub proof fn lemma_chosen_line_free(s: Seq<u8>, items: int, index: int)
    requires
        0 <= index,
        chosen_line(s, items, index) >= 0,
    ensures
        chosen_line(s, items, index) < items,
        !is_flagged(s, minted_mask_start(items), chosen_line(s, items, index)),
{
    let start = minted_mask_start(items);
    if index <= items {
        lemma_first_free_free(s, start, index, items);
    }
    lemma_last_free_free(s, start, index);
}

/// An account with room for the config lines and both bitmasks of `items` lines
/// holds everything that taking a config line reads, from any starting line.
pub proof fn lemma_layout_fits_config_line(s: Seq<u8>, items: int, index: int)
    requires
        0 <= index,
        0 <= items <= usize::MAX,
        minted_mask_start(items) + (items + 7) / 8 <= s.len() <= usize::MAX,
    ensures
        config_line_fits(s, items, index),
{
    let start = minted_mask_start(items);
    assert((items - 1) / 8 < (items + 7) / 8);
    assert forall|j: int|
        index <= j < items && #[trigger] reached_forward(s, start, index, j) implies start + j / 8
        < s.len() by {
        assert(j / 8 <= (items - 1) / 8);
    }
    assert forall|j: int|
        0 <= j <= index && index < items && #[trigger] reached_backward(s, start, index, j) implies start
        + j / 8 < s.len() by {
        assert(j / 8 <= (items - 1) / 8);
    }
}

/// No config line is minted twice: two mints in a row from a machine without hidden
/// settings take different lines, whatever lines they start their search from.
pub proof fn lemma_mints_take_distinct_lines(
    a: CandyMachine,
    s0: Seq<u8>,
    s1: Seq<u8>,
    s2: Seq<u8>,
    index1: int,
    mint1: int,
    r1: Result<ConfigLine, ErrorCode>,
    index2: int,
    mint2: int,
    r2: Result<ConfigLine, ErrorCode>,
)
    requires
        a.data.hidden_settings is None,
        0 <= index1,
        0 <= index2,
        minted_mask_start(a.data.items_available as int) + (a.data.items_available + 7) / 8 <= s0.len(),
        config_line_outcome(a, s0, s1, index1, mint1, r1),
        config_line_outcome(a, s1, s2, index2, mint2, r2),
        chosen_line(s0, a.data.items_available as int, index1) >= 0,
        chosen_line(s1, a.data.items_available as int, index2) >= 0,
    ensures
        chosen_line(s0, a.data.items_available as int, index1) != chosen_line(
            s1,
            a.data.items_available as int,
            index2,
        ),
{
    let items = a.data.items_available as int;
    let start = minted_mask_start(items);
    let c1 = chosen_line(s0, items, index1);
    let c2 = chosen_line(s1, items, index2);
    lemma_chosen_line_free(s0, items, index1);
    lemma_chosen_line_free(s1, items, index2);
    assert(c1 / 8 <= (items - 1) / 8);
    assert((items - 1) / 8 < (items + 7) / 8);
    lemma_with_flag(s0, start, c1, c1);
}

} // verus!
