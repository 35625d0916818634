//! The check that a mint transaction burned tokens: every instruction of the
//! transaction must call one of the known programs, and one must call the burner.
use vstd::prelude::*;

use crate::keys::{burner_id_bytes, keys_equal, minter_id_bytes, nft_merge_burner_id, nft_merge_minter_id};
use crate::state::Pubkey;
use crate::trusted::{
    base58_pubkey, parse_pubkey, read_pubkey_at, read_u16_at, system_program_id, token_program_id,
};

verus! {

/// The programs that the instructions of a mint transaction may call.
#[derive(Clone, Copy, Debug)]
pub struct ProgramIds {
    pub minter: Pubkey,
    pub token: Pubkey,
    pub system: Pubkey,
    pub associated_token: Pubkey,
    pub burner: Pubkey,
}

/// The verdict on the instructions of a mint transaction.
#[derive(Clone, Copy, Debug, PartialEq, Eq, Structural)]
pub enum InstructionCheck {
    /// Every instruction calls a known program and one calls the burner.
    Approved,
    /// No instruction calls the burner.
    NoBurnInstruction,
    /// An instruction calls a program that is not known.
    SuspiciousTransaction,
    /// The instruction list does not start with its length.
    InvalidAccountData,
    /// An instruction cannot be read: the program aborts.
    Malformed,
}

/// Base58 text of the associated token program's address.
pub open spec fn associated_token_text() -> Seq<char> {
    "ATokenGPvbdGVxr1b2hvZbsiqW5xWH25efTNsLJA8knL"@
}

/// The little-endian `u16` at `off`, if the data holds it.
pub open spec fn u16_at(s: Seq<u8>, off: int) -> Option<int> {
    if 0 <= off && off + 2 <= s.len() {
        Some(s[off] + 256 * s[off + 1])
    } else {
        None
    }
}

/// The program that instruction `i` of the serialized instruction list calls, or
/// none when it cannot be read. The list starts with the `u16` count of
/// instructions and their `u16` offsets; at its offset, an instruction holds the
/// `u16` count of its accounts, 33 bytes per account, then the program's address.
pub open spec fn instruction_program(s: Seq<u8>, i: int) -> Option<Seq<u8>> {
    if 2 * i > 65535 {
        None
    } else {
        match u16_at(s, 2 + 2 * i) {
            None => None,
            Some(start) => match u16_at(s, start) {
                None => None,
                Some(accounts) => {
                    let at = start + 2 + accounts * 33;
                    if at + 32 <= s.len() {
                        Some(s.subrange(at, at + 32))
                    } else {
                        None
                    }
                },
            },
        }
    }
}

/// The addresses of the programs in `ids`: the candy machine, the token program, the
/// system program, the associated token program and the burner.
pub open spec fn program_addresses(ids: ProgramIds) -> Seq<Seq<u8>> {
    seq![ids.minter@, ids.token@, ids.system@, ids.associated_token@, ids.burner@]
}

/// Whether `k` is one of the five addresses of `known`: the programs that a mint
/// transaction may call, the last of them the burner.
pub open spec fn is_known_program(known: Seq<Seq<u8>>, k: Seq<u8>) -> bool {
    ||| k == known[0]
    ||| k == known[1]
    ||| k == known[2]
    ||| k == known[3]
    ||| k == known[4]
}

/// The verdict on instructions `i .. n`, given whether an earlier one called the burner.
pub open spec fn check_from(s: Seq<u8>, known: Seq<Seq<u8>>, n: int, i: int, burned: bool) -> InstructionCheck
    decreases n - i,
{
    if i >= n {
        if burned {
            InstructionCheck::Approved
        } else {
            InstructionCheck::NoBurnInstruction
        }
    } else {
        match instruction_program(s, i) {
            None => InstructionCheck::Malformed,
            Some(k) => if !is_known_program(known, k) {
                InstructionCheck::SuspiciousTransaction
            } else {
                check_from(s, known, n, i + 1, burned || k == known[4])
            },
        }
    }
}

/// The verdict on a serialized instruction list, given the programs it may call.
pub open spec fn instruction_check(s: Seq<u8>, known: Seq<Seq<u8>>) -> InstructionCheck {
    match u16_at(s, 0) {
        None => InstructionCheck::InvalidAccountData,
        Some(n) => check_from(s, known, n, 0, false),
    }
}

/// Judges the serialized instruction list of a transaction: instructions are read in
/// order, the first one that calls an unknown program makes the transaction
/// suspicious, and a transaction without a call to the burner is refused.
pub fn check_instructions(instruction_sysvar: &[u8], ids: &ProgramIds) -> (r: InstructionCheck)
    ensures
        r == instruction_check(instruction_sysvar@, program_addresses(*ids)),
{
    let ghost s = instruction_sysvar@;
    let mut idx: usize = 0;
    let num_instructions = match read_u16_at(&mut idx, instruction_sysvar) {
        Ok(n) => n,
        Err(_) => return InstructionCheck::InvalidAccountData,
    };
    let ghost n = num_instructions as int;
    let mut detected_burn_instruction = false;
    let mut index: u16 = 0;
    while index < num_instructions
        invariant
            s == instruction_sysvar@,
            n == num_instructions,
            u16_at(s, 0) == Some(n),
            index <= num_instructions,
            check_from(s, program_addresses(*ids), n, index as int, detected_burn_instruction)
                == instruction_check(s, program_addresses(*ids)),
        decreases num_instructions - index,
    {
        let ghost i = index as int;
        let twice = match index.checked_mul(2) {
            Some(t) => t,
            None => return InstructionCheck::Malformed,
        };
        let mut current = 2 + twice as usize;
        let start = match read_u16_at(&mut current, instruction_sysvar) {
            Ok(v) => v,
            Err(_) => return InstructionCheck::Malformed,
        };
        current = start as usize;
        let num_accounts = match read_u16_at(&mut current, instruction_sysvar) {
            Ok(v) => v,
            Err(_) => return InstructionCheck::Malformed,
        };
        current += (num_accounts as usize) * (1 + 32);
        let program_id = match read_pubkey_at(&mut current, instruction_sysvar) {
            Ok(k) => k,
            Err(_) => return InstructionCheck::Malformed,
        };
        assert(instruction_program(s, i) == Some(program_id@));
        if !keys_equal(&program_id, &ids.minter) && !keys_equal(&program_id, &ids.token)
            && !keys_equal(&program_id, &ids.system) && !keys_equal(
            &program_id,
            &ids.associated_token,
        ) && !keys_equal(&program_id, &ids.burner) {
            return InstructionCheck::SuspiciousTransaction;
        }
        if keys_equal(&program_id, &ids.burner) {
            detected_burn_instruction = true;
        }
        index += 1;
    }
    if !detected_burn_instruction {
        return InstructionCheck::NoBurnInstruction;
    }
    InstructionCheck::Approved
}

/// The programs that a mint transaction may call, with `ata` as the associated token
/// program's address: the candy machine, the token program, the system program, the
/// associated token program and the burner.
pub open spec fn merge_programs(ata: Seq<u8>) -> Seq<Seq<u8>> {
    seq![
        minter_id_bytes(),
        seq![6u8, 221, 246, 225, 215, 101, 161, 147, 217, 203, 225, 70, 206, 235, 121, 172,
        28, 180, 133, 237, 95, 91, 55, 145, 58, 140, 245, 133, 126, 255, 0, 169],
        Seq::new(32, |_i: int| 0u8),
        ata,
        burner_id_bytes(),
    ]
}

/// The verdict on the instructions of a mint transaction. When the associated token
/// program's address does not decode, the program aborts after reading the
/// instruction count.
pub open spec fn transaction_verdict(s: Seq<u8>) -> InstructionCheck {
    match base58_pubkey(associated_token_text()) {
        Some(ata) => instruction_check(s, merge_programs(ata)),
        None => if s.len() < 2 {
            InstructionCheck::InvalidAccountData
        } else {
            InstructionCheck::Malformed
        },
    }
}

/// The programs that a mint transaction may call. None when the associated token
/// program's address does not decode.
pub fn merge_program_ids() -> (r: Option<ProgramIds>)
    ensures
        match base58_pubkey(associated_token_text()) {
            Some(ata) => r matches Some(ids) && program_addresses(ids) == merge_programs(ata),
            None => r is None,
        },
{
    let associated_token = match parse_pubkey("ATokenGPvbdGVxr1b2hvZbsiqW5xWH25efTNsLJA8knL") {
        Some(k) => k,
        None => return None,
    };
    let ids = ProgramIds {
        minter: nft_merge_minter_id(),
        token: token_program_id(),
        system: system_program_id(),
        associated_token,
        burner: nft_merge_burner_id(),
    };
    assert(program_addresses(ids) =~= merge_programs(associated_token@));
    Some(ids)
}

/// Judges the instructions of a mint transaction against the programs it may call.
pub fn check_mint_transaction(instruction_sysvar: &[u8]) -> (r: InstructionCheck)
    ensures
        r == transaction_verdict(instruction_sysvar@),
{
    match merge_program_ids() {
        Some(ids) => check_instructions(instruction_sysvar, &ids),
        None => if instruction_sysvar.len() < 2 {
            InstructionCheck::InvalidAccountData
        } else {
            InstructionCheck::Malformed
        },
    }
}

/// The verdict on instructions `i .. n` is `Approved` exactly when each of them
/// can be read and calls a known program, and the burner (the last known program)
/// was called before `i` or by one of them.
pub proof fn lemma_check_from_approved(s: Seq<u8>, known: Seq<Seq<u8>>, n: int, i: int, burned: bool)
    requires
        0 <= i,
    ensures
        (check_from(s, known, n, i, burned) == InstructionCheck::Approved) <==> {
            &&& forall|j: int|
                i <= j < n ==> #[trigger] instruction_program(s, j) is Some && is_known_program(
                    known,
                    instruction_program(s, j)->0,
                )
            &&& burned || exists|j: int|
                i <= j < n && #[trigger] instruction_program(s, j) == Some(known[4])
        },
    decreases n - i,
{
    if i < n {
        lemma_check_from_approved(s, known, n, i + 1, burned || (instruction_program(s, i) is Some
            && instruction_program(s, i)->0 == known[4]));
        if instruction_program(s, i) is Some && is_known_program(known, instruction_program(s, i)->0) {
            let k = instruction_program(s, i)->0;
            if !burned && k == known[4] {
                assert(instruction_program(s, i) == Some(known[4]));
            }
            if !burned && k != known[4] {
                if exists|j: int| i <= j < n && #[trigger] instruction_program(s, j) == Some(known[4]) {
                    let j = choose|j: int| i <= j < n && #[trigger] instruction_program(s, j) == Some(known[4]);
                    assert(j != i);
                }
            }
        }
    }
}

/// A mint transaction is approved exactly when its instruction list can be read,
/// every instruction calls one of the known programs, and one of them calls the
/// burner.
pub proof fn lemma_approved_iff_burn(s: Seq<u8>, known: Seq<Seq<u8>>)
    ensures
        (instruction_check(s, known) == InstructionCheck::Approved) <==> (u16_at(s, 0) matches Some(n) && {
            &&& forall|j: int|
                0 <= j < n ==> #[trigger] instruction_program(s, j) is Some && is_known_program(
                    known,
                    instruction_program(s, j)->0,
                )
            &&& exists|j: int| 0 <= j < n && #[trigger] instruction_program(s, j) == Some(known[4])
        }),
{
    if let Some(n) = u16_at(s, 0) {
        lemma_check_from_approved(s, known, n, 0, false);
    }
}

/// A mint transaction may call exactly five programs: the candy machine, the token
/// program, the system program, the associated token program and the burner.
pub proof fn lemma_merge_programs_are_known(ata: Seq<u8>, k: Seq<u8>)
    ensures
        is_known_program(merge_programs(ata), k) <==> (k == minter_id_bytes() || k == seq![
            6u8, 221, 246, 225, 215, 101, 161, 147, 217, 203, 225, 70, 206, 235, 121, 172,
            28, 180, 133, 237, 95, 91, 55, 145, 58, 140, 245, 133, 126, 255, 0, 169] || k == Seq::new(
            32,
            |_i: int| 0u8,
        ) || k == ata || k == burner_id_bytes()),
        merge_programs(ata)[4] == burner_id_bytes(),
{
}

/// Every program of the list of five that a transaction may call is known, whichever
/// of them it is.
pub proof fn lemma_listed_programs_are_known(known: Seq<Seq<u8>>, j: int)
    requires
        known.len() == 5,
        0 <= j < 5,
    ensures
        is_known_program(known, known[j]),
{
}

/// The little-endian bytes of `v`, below 2^16.
pub open spec fn le16_bytes(v: int) -> Seq<u8> {
    seq![(v % 256) as u8, ((v / 256) % 256) as u8]
}

/// An instruction as the instruction list stores it, calling `program` with
/// `accounts` accounts (each a flag byte and an address, here all zero).
pub open spec fn instruction_record(accounts: nat, program: Seq<u8>) -> Seq<u8> {
    le16_bytes(accounts as int) + Seq::new(33 * accounts, |_i: int| 0u8) + program
}

/// The records of the instructions `calls`, each an account count and a program, one
/// after the other.
pub open spec fn instruction_records(calls: Seq<(nat, Seq<u8>)>) -> Seq<u8>
    decreases calls.len(),
{
    if calls.len() == 0 {
        seq![]
    } else {
        instruction_records(calls.drop_last()) + instruction_record(calls.last().0, calls.last().1)
    }
}

/// The serialized instruction list of a transaction whose instructions are `calls`:
/// their count, the offset of each instruction, then the instructions.
pub open spec fn instruction_list(calls: Seq<(nat, Seq<u8>)>) -> Seq<u8> {
    let n = calls.len() as int;
    le16_bytes(n) + Seq::new(
        (2 * n) as nat,
        |i: int| le16_bytes(2 + 2 * n + instruction_records(calls.take(i / 2)).len())[i % 2],
    ) + instruction_records(calls)
}

/// The bytes of `le16_bytes(v)` read back as `v`.
proof fn lemma_le16_value(v: int)
    requires
        0 <= v < 65536,
    ensures
        le16_bytes(v)[0] + 256 * le16_bytes(v)[1] == v,
{
}

/// Each instruction's record lies in the records at the length of those before it.
proof fn lemma_record_in_place(calls: Seq<(nat, Seq<u8>)>, j: int)
    requires
        0 <= j < calls.len(),
    ensures
        ({
            let at = instruction_records(calls.take(j)).len() as int;
            let rec = instruction_record(calls[j].0, calls[j].1);
            &&& at + rec.len() <= instruction_records(calls).len()
            &&& instruction_records(calls).subrange(at, at + rec.len()) == rec
        }),
    decreases calls.len(),
{
    let front = calls.drop_last();
    let n = calls.len();
    if j == n - 1 {
        assert(calls.take(j) =~= front);
        assert(instruction_records(calls).subrange(
            instruction_records(front).len() as int,
            instruction_records(calls).len() as int,
        ) =~= instruction_record(calls[j].0, calls[j].1));
    } else {
        lemma_record_in_place(front, j);
        assert(front.take(j) =~= calls.take(j));
        assert(front[j] == calls[j]);
        let at = instruction_records(calls.take(j)).len() as int;
        let rec = instruction_record(calls[j].0, calls[j].1);
        assert(instruction_records(calls).subrange(at, at + rec.len()) =~= instruction_records(
            front,
        ).subrange(at, at + rec.len()));
    }
}

/// An instruction list reads back as the calls it was written with: its count is the
/// number of calls, and instruction `j` calls the program of the `j`-th call,
/// whatever the numbers of accounts.
pub proof fn lemma_instruction_list_read_back(calls: Seq<(nat, Seq<u8>)>, j: int)
    requires
        calls.len() <= 32767,
        instruction_list(calls).len() <= 65536,
        forall|t: int| 0 <= t < calls.len() ==> (#[trigger] calls[t]).1.len() == 32 && calls[t].0 < 65536,
        0 <= j < calls.len(),
    ensures
        u16_at(instruction_list(calls), 0) == Some(calls.len() as int),
        instruction_program(instruction_list(calls), j) == Some(calls[j].1),
{
    let n = calls.len() as int;
    let l = instruction_list(calls);
    let recs = instruction_records(calls);
    let h = 2 + 2 * n;
    let at = instruction_records(calls.take(j)).len() as int;
    let (a, k) = calls[j];
    let rec = instruction_record(a, k);
    lemma_record_in_place(calls, j);
    assert(l.len() == h + recs.len());
    assert(rec.len() == 2 + 33 * a + 32);
    lemma_le16_value(n);
    assert(l[0] == le16_bytes(n)[0]);
    assert(l[1] == le16_bytes(n)[1]);
    let start = h + at;
    assert(start < 65536);
    lemma_le16_value(start);
    assert((2 * j) / 2 == j && (2 * j + 1) / 2 == j);
    assert(l[2 + 2 * j] == le16_bytes(start)[0]);
    assert(l[3 + 2 * j] == le16_bytes(start)[1]);
    assert(u16_at(l, 2 + 2 * j) == Some(start));
    // The record of instruction `j` sits at its offset.
    assert forall|b: int| 0 <= b < rec.len() implies #[trigger] l[start + b] == rec[b] by {
        assert(l[start + b] == recs[at + b]);
        assert(recs.subrange(at, at + rec.len())[b] == recs[at + b]);
    }
    lemma_le16_value(a as int);
    assert(l[start] == rec[0]);
    assert(l[start + 1] == rec[1]);
    assert(u16_at(l, start) == Some(a as int));
    let p = start + 2 + a * 33;
    assert(l.subrange(p, p + 32) =~= k) by {
        assert forall|b: int| 0 <= b < 32 implies l.subrange(p, p + 32)[b] == k[b] by {
            assert(l[start + (2 + 33 * a + b)] == rec[2 + 33 * a + b]);
        }
    }
}

} // verus!
