//! Addresses of the programs and accounts that the merge programs know by name.
use vstd::prelude::*;

use crate::state::Pubkey;

verus! {

/// Address of the candy machine program, `3igxATX3UJwWLcKCutKsbTF22wU1Hbvb9LCVNmqLPSSM`.
pub open spec fn minter_id_bytes() -> Seq<u8> {
    seq![40u8, 101, 92, 31, 252, 16, 146, 14, 16, 226, 213, 36, 224, 57, 220, 163,
        149, 116, 3, 222, 67, 154, 229, 114, 98, 146, 85, 222, 123, 84, 73, 98]
}

/// The address of the candy machine program.
pub fn nft_merge_minter_id() -> (r: Pubkey)
    ensures
        r@ == minter_id_bytes(),
{
    let r: [u8; 32] = [40u8, 101, 92, 31, 252, 16, 146, 14, 16, 226, 213, 36, 224, 57, 220, 163,
        149, 116, 3, 222, 67, 154, 229, 114, 98, 146, 85, 222, 123, 84, 73, 98];
    assert(r@ =~= minter_id_bytes());
    r
}

/// Address of the burner program, `6vXpr44iixcD9j5Nkim5f49d29weie2uvRWAPyoyjEB9`.
pub open spec fn burner_id_bytes() -> Seq<u8> {
    seq![88u8, 1, 18, 69, 48, 254, 68, 148, 172, 142, 8, 205, 8, 187, 97, 39,
        174, 142, 7, 40, 123, 174, 237, 185, 86, 107, 30, 22, 9, 125, 253, 240]
}

/// The address of the burner program.
pub fn nft_merge_burner_id() -> (r: Pubkey)
    ensures
        r@ == burner_id_bytes(),
{
    let r: [u8; 32] = [88u8, 1, 18, 69, 48, 254, 68, 148, 172, 142, 8, 205, 8, 187, 97, 39,
        174, 142, 7, 40, 123, 174, 237, 185, 86, 107, 30, 22, 9, 125, 253, 240];
    assert(r@ =~= burner_id_bytes());
    r
}

/// Addresses of the candy machines whose tokens may be merged:
/// `9GkEPXXrb6Z11MUHwMbDuRQSpHETa5bReQtaH71txAEQ` and
/// `DmeJsA7tRtxwfng98t1SJRr1oD87AWbZyCf7mHYS57rC`.
pub open spec fn merge_candy_machines() -> Seq<Seq<u8>> {
    seq![
        seq![122u8, 230, 22, 188, 15, 83, 203, 21, 4, 189, 148, 185, 137, 154, 25, 201,
        47, 141, 55, 114, 125, 114, 39, 126, 178, 26, 95, 213, 146, 118, 18, 149],
        seq![189u8, 187, 251, 167, 64, 140, 131, 28, 37, 164, 246, 73, 112, 125, 63, 246,
        81, 59, 183, 125, 207, 48, 21, 247, 240, 206, 42, 25, 66, 60, 7, 141],
    ]
}

/// The addresses of the candy machines whose tokens may be merged.
pub fn candy_machine_keys() -> (r: Vec<Pubkey>)
    ensures
        r@.len() == merge_candy_machines().len(),
        forall|i: int| 0 <= i < r@.len() ==> #[trigger] r@[i]@ == merge_candy_machines()[i],
{
    let first: [u8; 32] = [122u8, 230, 22, 188, 15, 83, 203, 21, 4, 189, 148, 185, 137, 154, 25, 201,
        47, 141, 55, 114, 125, 114, 39, 126, 178, 26, 95, 213, 146, 118, 18, 149];
    let second: [u8; 32] = [189u8, 187, 251, 167, 64, 140, 131, 28, 37, 164, 246, 73, 112, 125, 63, 246,
        81, 59, 183, 125, 207, 48, 21, 247, 240, 206, 42, 25, 66, 60, 7, 141];
    assert(first@ =~= merge_candy_machines()[0]);
    assert(second@ =~= merge_candy_machines()[1]);
    let mut r: Vec<Pubkey> = Vec::new();
    r.push(first);
    r.push(second);
    r
}

/// Whether two addresses are the same.
pub fn keys_equal(a: &Pubkey, b: &Pubkey) -> (r: bool)
    ensures
        r == (a@ == b@),
{
    let mut i: usize = 0;
    while i < 32
        invariant
            i <= 32,
            forall|j: int| 0 <= j < i ==> a@[j] == b@[j],
        decreases 32 - i,
    {
        if a[i] != b[i] {
            return false;
        }
        i = i + 1;
    }
    assert(a@ =~= b@);
    true
}

/// Whether `k` is one of `keys`.
pub fn contains_key(keys: &Vec<Pubkey>, k: &Pubkey) -> (r: bool)
    ensures
        r == exists|i: int| 0 <= i < keys@.len() && #[trigger] keys@[i]@ == k@,
{
    let mut i: usize = 0;
    while i < keys.len()
        invariant
            i <= keys@.len(),
            forall|j: int| 0 <= j < i ==> #[trigger] keys@[j]@ != k@,
        decreases keys@.len() - i,
    {
        if keys_equal(&keys[i], k) {
            return true;
        }
        i = i + 1;
    }
    false
}

} // verus!
