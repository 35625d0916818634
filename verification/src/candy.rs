//! The candy machine's instructions, apart from the calls into other programs:
//! creating a machine, changing its settings or authority, taking its funds and
//! preparing a mint.
use vstd::prelude::*;
use vstd::utf8::{
    decode_utf8, encode_scalar, encode_utf8, encode_utf8_decode_utf8, encode_utf8_valid_utf8,
    valid_utf8,
};

use crate::config_lines::{config_line_fits, config_line_outcome, get_config_line, zeros};
use crate::error::ErrorCode;
use crate::instructions::{check_mint_transaction, transaction_verdict, InstructionCheck};
use crate::keys::keys_equal;
use crate::layout::{
    added_mask_len_offset, le_u32_at, le_u32_bytes, le_u64_at, read_le_u64, minted_mask_start, CONFIG_ARRAY_START,
    CONFIG_LINE_SIZE, MAX_BASIS_POINTS, MAX_CREATOR_LIMIT, MAX_SYMBOL_LENGTH,
};
use crate::state::{CandyMachine, CandyMachineData, ConfigLine, Creator, Pubkey};
use crate::trusted::utf8_string;

verus! {

/// `n` NUL characters.
pub open spec fn nul_chars(n: int) -> Seq<char> {
    Seq::new(n as nat, |_i: int| 0u32 as char)
}

/// Bytes that an account of a machine with these settings needs: the state alone
/// under hidden settings, else also the config lines, the two bitmasks and their
/// lengths.
pub open spec fn space_for_candy(data: CandyMachineData) -> int {
    if data.hidden_settings is Some {
        CONFIG_ARRAY_START as int
    } else {
        CONFIG_ARRAY_START + 4 + data.items_available * CONFIG_LINE_SIZE + 8 + 2 * (
        data.items_available / 8 + 1)
    }
}

/// The bytes that an account of a machine with these settings needs.
pub fn get_space_for_candy(data: CandyMachineData) -> (r: Result<usize, ErrorCode>)
    requires
        space_for_candy(data) <= usize::MAX,
    ensures
        r == Ok::<usize, ErrorCode>(space_for_candy(data) as usize),
{
    let num = if data.hidden_settings.is_some() {
        CONFIG_ARRAY_START
    } else {
        let eighth = match data.items_available.checked_div(8) {
            Some(q) => q,
            None => return Err(ErrorCode::NumericalOverflowError),
        };
        proof {
            assert(data.items_available * CONFIG_LINE_SIZE >= data.items_available) by (nonlinear_arith)
                requires
                    CONFIG_LINE_SIZE == 240,
            ;
        }
        CONFIG_ARRAY_START + 4 + (data.items_available as usize) * CONFIG_LINE_SIZE + 8 + 2 * ((
        eighth + 1) as usize)
    };
    Ok(num)
}

/// The encoding of two texts one after the other is their encodings one after the
/// other.
pub proof fn lemma_encode_concat(a: Seq<char>, b: Seq<char>)
    ensures
        encode_utf8(a + b) == encode_utf8(a) + encode_utf8(b),
    decreases a.len(),
{
    if a.len() == 0 {
        assert(a + b =~= b);
        assert(encode_utf8(a) =~= seq![]);
        assert(encode_utf8(a) + encode_utf8(b) =~= encode_utf8(b));
    } else {
        lemma_encode_concat(a.drop_first(), b);
        assert((a + b).drop_first() =~= a.drop_first() + b);
        assert((a + b)[0] == a[0]);
        assert(encode_utf8(a + b) =~= encode_scalar(a[0] as u32) + encode_utf8(a.drop_first() + b));
    }
}

/// NUL characters are encoded as zero bytes.
proof fn lemma_encode_nuls(n: int)
    requires
        n >= 0,
    ensures
        encode_utf8(nul_chars(n)) == zeros(n),
    decreases n,
{
    if n > 0 {
        lemma_encode_nuls(n - 1);
        let t = nul_chars(n);
        assert(t.drop_first() =~= nul_chars(n - 1));
        assert((t[0] as u32) == 0u32);
        assert((0u32 & 0x7F) as u8 == 0u8) by (bit_vector);
        assert(encode_scalar(0u32) =~= seq![0u8]);
        assert(encode_utf8(t) =~= zeros(n));
    } else {
        assert(encode_utf8(nul_chars(n)) =~= zeros(n));
    }
}

/// Zero bytes are valid UTF-8 for NUL characters.
proof fn lemma_zeros_decode(n: int)
    requires
        n >= 0,
    ensures
        valid_utf8(zeros(n)),
        decode_utf8(zeros(n)) == nul_chars(n),
{
    lemma_encode_nuls(n);
    encode_utf8_valid_utf8(nul_chars(n));
    encode_utf8_decode_utf8(nul_chars(n));
}

/// The state of a new candy machine: its settings with the symbol padded with NUL
/// characters to `MAX_SYMBOL_LENGTH` bytes, no token mint and nothing redeemed.
/// Refuses a uuid that is not 6 bytes long, more creators than a token may list
/// beside the machine itself, and royalty basis points above 10000.
pub fn initialize_candy_machine(data: CandyMachineData, authority: Pubkey, wallet: Pubkey) -> (r:
    Result<CandyMachine, ErrorCode>)
    requires
        encode_utf8(data.uuid@).len() == 6 ==> encode_utf8(data.symbol@).len() <= MAX_SYMBOL_LENGTH,
    ensures
        encode_utf8(data.uuid@).len() != 6 ==> r == Err::<CandyMachine, ErrorCode>(
            ErrorCode::UuidMustBeExactly6Length,
        ),
        encode_utf8(data.uuid@).len() == 6 && data.creators@.len() > MAX_CREATOR_LIMIT - 1 ==> r
            == Err::<CandyMachine, ErrorCode>(ErrorCode::TooManyCreators),
        encode_utf8(data.uuid@).len() == 6 && data.creators@.len() <= MAX_CREATOR_LIMIT - 1
            && data.seller_fee_basis_points > MAX_BASIS_POINTS ==> r == Err::<CandyMachine, ErrorCode>(
            ErrorCode::InvalidBasisPoints,
        ),
        encode_utf8(data.uuid@).len() == 6 && data.creators@.len() <= MAX_CREATOR_LIMIT - 1
            && data.seller_fee_basis_points <= MAX_BASIS_POINTS ==> (r matches Ok(cm) && {
            &&& cm.authority == authority
            &&& cm.wallet == wallet
            &&& cm.token_mint is None
            &&& cm.items_redeemed == 0
            &&& cm.data.symbol@ == data.symbol@ + nul_chars(
                MAX_SYMBOL_LENGTH - encode_utf8(data.symbol@).len(),
            )
            &&& cm.data == (CandyMachineData { symbol: cm.data.symbol, ..data })
            &&& encode_utf8(cm.data.symbol@).len() == MAX_SYMBOL_LENGTH
        }),
{
    if data.uuid.as_str().as_bytes().len() != 6 {
        return Err(ErrorCode::UuidMustBeExactly6Length);
    }
    let mut candy_machine = CandyMachine {
        data,
        authority,
        wallet,
        token_mint: None,
        items_redeemed: 0,
    };
    let ghost symbol_len = encode_utf8(candy_machine.data.symbol@).len() as int;
    let pad = MAX_SYMBOL_LENGTH - candy_machine.data.symbol.as_str().as_bytes().len();
    let mut array_of_zeroes: Vec<u8> = Vec::new();
    while array_of_zeroes.len() < pad
        invariant
            array_of_zeroes@ == zeros(array_of_zeroes@.len() as int),
            array_of_zeroes@.len() <= pad,
        decreases pad - array_of_zeroes@.len(),
    {
        array_of_zeroes.push(0u8);
        assert(array_of_zeroes@ =~= zeros(array_of_zeroes@.len() as int));
    }
    proof {
        lemma_zeros_decode(pad as int);
    }
    let padding = match utf8_string(array_of_zeroes) {
        Some(s) => s,
        None => {
            proof {
                assert(false);
            }
            String::new()
        },
    };
    let mut new_symbol = candy_machine.data.symbol.clone();
    new_symbol.append(padding.as_str());
    proof {
        lemma_encode_concat(candy_machine.data.symbol@, nul_chars(pad as int));
        lemma_encode_nuls(pad as int);
    }
    candy_machine.data.symbol = new_symbol;
    if candy_machine.data.creators.len() > MAX_CREATOR_LIMIT - 1 {
        return Err(ErrorCode::TooManyCreators);
    }
    if candy_machine.data.seller_fee_basis_points > MAX_BASIS_POINTS {
        return Err(ErrorCode::InvalidBasisPoints);
    }
    Ok(candy_machine)
}

/// The account of a new candy machine: its serialized state at the start, and the
/// length of the bitmask of added lines, `items_available / 8`, after the lines.
pub open spec fn initial_account(s: Seq<u8>, serialized: Seq<u8>, items_available: int) -> Seq<u8> {
    let head = serialized + s.subrange(serialized.len() as int, s.len() as int);
    let at = added_mask_len_offset(items_available);
    head.subrange(0, at) + le_u32_bytes((items_available / 8) % 4294967296) + head.subrange(
        at + 4,
        s.len() as int,
    )
}

/// A new machine's account starts with its whole serialized state: every byte of the
/// state is written at its own offset, every other byte is kept, except the four
/// bytes after the config lines, which hold `items_available / 8` as a
/// little-endian `u32` (overwriting the state there if the state reaches them).
pub proof fn lemma_initial_account_holds_state(s: Seq<u8>, serialized: Seq<u8>, items_available: int)
    requires
        0 <= items_available,
        serialized.len() <= s.len(),
        added_mask_len_offset(items_available) + 4 <= s.len(),
    ensures
        initial_account(s, serialized, items_available).len() == s.len(),
        forall|i: int|
            0 <= i < s.len() && !(added_mask_len_offset(items_available) <= i
                < added_mask_len_offset(items_available) + 4) ==> #[trigger] initial_account(
                s,
                serialized,
                items_available,
            )[i] == if i < serialized.len() {
                serialized[i]
            } else {
                s[i]
            },
        le_u32_at(initial_account(s, serialized, items_available), added_mask_len_offset(items_available))
            == (items_available / 8) % 4294967296,
        serialized.len() <= added_mask_len_offset(items_available) ==> initial_account(
            s,
            serialized,
            items_available,
        ).subrange(0, serialized.len() as int) == serialized,
{
    let t = initial_account(s, serialized, items_available);
    let at = added_mask_len_offset(items_available);
    let v = (items_available / 8) % 4294967296;
    assert(items_available * CONFIG_LINE_SIZE >= 0) by (nonlinear_arith)
        requires
            items_available >= 0,
            CONFIG_LINE_SIZE == 240,
    ;
    crate::invariants::lemma_le_u32_bytes_value(v);
    assert(t[at] == le_u32_bytes(v)[0]);
    assert(t[at + 1] == le_u32_bytes(v)[1]);
    assert(t[at + 2] == le_u32_bytes(v)[2]);
    assert(t[at + 3] == le_u32_bytes(v)[3]);
    if serialized.len() <= at {
        assert(t.subrange(0, serialized.len() as int) =~= serialized);
    }
}

/// Writes the serialized state of a new candy machine to its account, and the
/// length of its bitmask of added lines.
pub fn write_candy_machine_account(
    account: &mut Vec<u8>,
    serialized: &Vec<u8>,
    items_available: u64,
) -> (r: Result<(), ErrorCode>)
    requires
        serialized@.len() <= old(account)@.len(),
        added_mask_len_offset(items_available as int) + 4 <= old(account)@.len(),
    ensures
        r == Ok::<(), ErrorCode>(()),
        final(account)@ == initial_account(old(account)@, serialized@, items_available as int),
{
    let ghost s0 = account@;
    let mut i: usize = 0;
    while i < serialized.len()
        invariant
            i <= serialized@.len() <= s0.len(),
            account@.len() == s0.len(),
            forall|j: int|
                0 <= j < s0.len() ==> #[trigger] account@[j] == if j < i {
                    serialized@[j]
                } else {
                    s0[j]
                },
        decreases serialized@.len() - i,
    {
        account.set(i, serialized[i]);
        i = i + 1;
    }
    let ghost head = account@;
    assert(head =~= serialized@ + s0.subrange(serialized@.len() as int, s0.len() as int));
    proof {
        assert(account.len() == account@.len());
        assert(items_available * CONFIG_LINE_SIZE >= items_available) by (nonlinear_arith)
            requires
                CONFIG_LINE_SIZE == 240,
        ;
    }
    let vec_start = CONFIG_ARRAY_START + 4 + (#[verifier::truncate] (items_available as usize)) * CONFIG_LINE_SIZE;
    let eighth = match items_available.checked_div(8) {
        Some(q) => q,
        None => return Err(ErrorCode::NumericalOverflowError),
    };
    let c = #[verifier::truncate] (eighth as u32);
    proof {
        assert(c == eighth % 0x1_0000_0000) by (bit_vector)
            requires
                c == #[verifier::truncate] (eighth as u32),
        ;
    }
    account.set(vec_start, (c % 256) as u8);
    account.set(vec_start + 1, ((c / 256) % 256) as u8);
    account.set(vec_start + 2, ((c / 65536) % 256) as u8);
    account.set(vec_start + 3, ((c / 16777216) % 256) as u8);
    assert(account@ =~= initial_account(s0, serialized@, items_available as int));
    Ok(())
}

/// Replaces the settings of a candy machine and its wallet, and forgets its token
/// mint. The number of lines may change only under hidden settings, a machine with
/// lines cannot switch to hidden settings, a machine takes at most four creators
/// beside itself, and royalty basis points are at most 10000.
pub fn update_candy_machine(candy_machine: &mut CandyMachine, wallet: Pubkey, data: CandyMachineData) -> (r:
    Result<(), ErrorCode>)
    ensures
        if data.items_available != old(candy_machine).data.items_available
            && data.hidden_settings is None {
            &&& r == Err::<(), ErrorCode>(ErrorCode::CannotChangeNumberOfLines)
            &&& *final(candy_machine) == *old(candy_machine)
        } else if old(candy_machine).data.items_available > 0
            && old(candy_machine).data.hidden_settings is None && data.hidden_settings is Some {
            &&& r == Err::<(), ErrorCode>(ErrorCode::CannotSwitchToHiddenSettings)
            &&& *final(candy_machine) == *old(candy_machine)
        } else if data.creators@.len() > MAX_CREATOR_LIMIT - 1 {
            &&& r == Err::<(), ErrorCode>(ErrorCode::TooManyCreators)
            &&& *final(candy_machine) == *old(candy_machine)
        } else if data.seller_fee_basis_points > MAX_BASIS_POINTS {
            &&& r == Err::<(), ErrorCode>(ErrorCode::InvalidBasisPoints)
            &&& *final(candy_machine) == *old(candy_machine)
        } else {
            &&& r == Ok::<(), ErrorCode>(())
            &&& *final(candy_machine) == (CandyMachine {
                wallet,
                data,
                token_mint: None,
                ..*old(candy_machine)
            })
        },
{
    if data.items_available != candy_machine.data.items_available && data.hidden_settings.is_none() {
        return Err(ErrorCode::CannotChangeNumberOfLines);
    }
    if candy_machine.data.items_available > 0 && candy_machine.data.hidden_settings.is_none()
        && data.hidden_settings.is_some() {
        return Err(ErrorCode::CannotSwitchToHiddenSettings);
    }
    if data.creators.len() > MAX_CREATOR_LIMIT - 1 {
        return Err(ErrorCode::TooManyCreators);
    }
    if data.seller_fee_basis_points > MAX_BASIS_POINTS {
        return Err(ErrorCode::InvalidBasisPoints);
    }
    candy_machine.wallet = wallet;
    candy_machine.data = data;
    candy_machine.token_mint = None;
    Ok(())
}

/// Sets the authority of a candy machine when a new one is given.
pub fn update_authority(candy_machine: &mut CandyMachine, new_authority: Option<Pubkey>) -> (r:
    Result<(), ErrorCode>)
    ensures
        r == Ok::<(), ErrorCode>(()),
        *final(candy_machine) == match new_authority {
            Some(a) => CandyMachine { authority: a, ..*old(candy_machine) },
            None => *old(candy_machine),
        },
{
    if let Some(new_auth) = new_authority {
        candy_machine.authority = new_auth;
    }
    Ok(())
}

/// Moves all lamports of the candy machine's account to its authority: gives back
/// the two new balances, or an overflow error when the authority's would not fit.
pub fn withdraw_funds(candy_machine_lamports: u64, authority_lamports: u64) -> (r: Result<
    (u64, u64),
    ErrorCode,
>)
    ensures
        authority_lamports + candy_machine_lamports <= u64::MAX ==> r == Ok::<(u64, u64), ErrorCode>(
            (0, (authority_lamports + candy_machine_lamports) as u64),
        ),
        authority_lamports + candy_machine_lamports > u64::MAX ==> r == Err::<(u64, u64), ErrorCode>(
            ErrorCode::NumericalOverflowError,
        ),
        r matches Ok((c, a)) ==> c + a == candy_machine_lamports + authority_lamports,
{
    let snapshot: u64 = candy_machine_lamports;
    let emptied: u64 = 0;
    let credited = match authority_lamports.checked_add(snapshot) {
        Some(v) => v,
        None => return Err(ErrorCode::NumericalOverflowError),
    };
    Ok((emptied, credited))
}

/// Refuses an account whose owner is not `owner`.
pub fn assert_owned_by(account_owner: &Pubkey, owner: &Pubkey) -> (r: Result<(), ErrorCode>)
    ensures
        r == if account_owner@ == owner@ {
            Ok::<(), ErrorCode>(())
        } else {
            Err::<(), ErrorCode>(ErrorCode::IncorrectOwner)
        },
{
    if !keys_equal(account_owner, owner) {
        Err(ErrorCode::IncorrectOwner)
    } else {
        Ok(())
    }
}

/// What the calls that mint a token need from the candy machine.
pub struct MintPlan {
    /// The name and URI of the token.
    pub config_line: ConfigLine,
    /// The creators listed in the token's metadata.
    pub creators: Vec<Creator>,
    /// The update authority of the token's metadata.
    pub update_authority: Pubkey,
}

/// Why a mint is refused.
#[derive(Clone, Copy, Debug, PartialEq, Eq, Structural)]
pub enum MintError {
    /// One of the candy machine's own errors.
    Refused(ErrorCode),
    /// The transaction's instruction list does not start with its length.
    InvalidAccountData,
    /// An instruction of the transaction cannot be read: the program aborts.
    UnreadableInstruction,
}

/// How the verdict on the transaction's instructions refuses a mint, if it does: no
/// call of the burner gives `NoBurnInstruction`, a call of an unknown program
/// `SuspiciousTransaction`.
pub open spec fn transaction_refusal(v: InstructionCheck) -> Option<MintError> {
    match v {
        InstructionCheck::Approved => None,
        InstructionCheck::NoBurnInstruction => Some(MintError::Refused(ErrorCode::NoBurnInstruction)),
        InstructionCheck::SuspiciousTransaction => Some(
            MintError::Refused(ErrorCode::SuspiciousTransaction),
        ),
        InstructionCheck::InvalidAccountData => Some(MintError::InvalidAccountData),
        InstructionCheck::Malformed => Some(MintError::UnreadableInstruction),
    }
}

/// The transaction lets a mint through only when it is approved; one without a
/// call of the burner is refused with `NoBurnInstruction`, one calling an unknown
/// program with `SuspiciousTransaction`.
pub proof fn lemma_transaction_refusals(v: InstructionCheck)
    ensures
        transaction_refusal(v) is None <==> v == InstructionCheck::Approved,
        v == InstructionCheck::NoBurnInstruction ==> transaction_refusal(v) == Some(
            MintError::Refused(ErrorCode::NoBurnInstruction),
        ),
        v == InstructionCheck::SuspiciousTransaction ==> transaction_refusal(v) == Some(
            MintError::Refused(ErrorCode::SuspiciousTransaction),
        ),
{
}

/// What a mint gives back once the config line was taken (`line`): the line's error,
/// the transaction's refusal, or a plan carrying the line.
pub open spec fn mint_result(
    line: Result<ConfigLine, ErrorCode>,
    verdict: InstructionCheck,
    r: Result<MintPlan, MintError>,
) -> bool {
    match line {
        Err(e) => r == Err::<MintPlan, MintError>(MintError::Refused(e)),
        Ok(l) => match transaction_refusal(verdict) {
            Some(e) => r == Err::<MintPlan, MintError>(e),
            None => r matches Ok(plan) && plan.config_line.name@ == l.name@
                && plan.config_line.uri@ == l.uri@,
        },
    }
}

/// The line a mint starts its search from: the first recent blockhash's low `u64`,
/// modulo the number of lines.
pub open spec fn mint_index(recent_blockhashes: Seq<u8>, items: int) -> int {
    (le_u64_at(recent_blockhashes, 8) % items) as usize as int
}

/// The creators of a minted token: the candy machine's creator address, verified
/// and without share, then the machine's creators, unverified, with their shares.
pub open spec fn minted_creators(candy_machine_creator: Pubkey, creators: Seq<Creator>, out: Seq<
    Creator,
>) -> bool {
    &&& out.len() == creators.len() + 1
    &&& out[0].address == candy_machine_creator && out[0].verified && out[0].share == 0
    &&& forall|k: int|
        1 <= k <= creators.len() ==> {
            &&& #[trigger] out[k].address == creators[k - 1].address
            &&& !out[k].verified
            &&& out[k].share == creators[k - 1].share
        }
}

/// The minted token lists the candy machine's creator address first, verified and
/// without share, then every creator of the machine, in order, unverified, with its
/// share: one entry more than the machine has creators.
pub proof fn lemma_minted_token_lists_every_creator(
    candy_machine_creator: Pubkey,
    creators: Seq<Creator>,
    out: Seq<Creator>,
)
    requires
        minted_creators(candy_machine_creator, creators, out),
    ensures
        out.len() == creators.len() + 1,
        out[0] == (Creator { address: candy_machine_creator, verified: true, share: 0 }),
        forall|k: int|
            0 <= k < creators.len() ==> #[trigger] out[k + 1] == (Creator {
                address: creators[k].address,
                verified: false,
                share: creators[k].share,
            }),
{
    assert forall|k: int| 0 <= k < creators.len() implies #[trigger] out[k + 1] == (Creator {
        address: creators[k].address,
        verified: false,
        share: creators[k].share,
    }) by {
        assert(out[k + 1].address == creators[(k + 1) - 1].address);
    }
}

/// The creators of a minted token.
fn minted_creator_list(candy_machine_creator: Pubkey, source: &Vec<Creator>) -> (creators: Vec<
    Creator,
>)
    ensures
        minted_creators(candy_machine_creator, source@, creators@),
{
    let mut creators: Vec<Creator> = Vec::new();
    creators.push(Creator { address: candy_machine_creator, verified: true, share: 0 });
    let mut i: usize = 0;
    while i < source.len()
        invariant
            i <= source@.len(),
            creators@.len() == i + 1,
            creators@[0].address == candy_machine_creator && creators@[0].verified
                && creators@[0].share == 0,
            forall|k: int|
                1 <= k <= i ==> {
                    &&& #[trigger] creators@[k].address == source@[k - 1].address
                    &&& !creators@[k].verified
                    &&& creators@[k].share == source@[k - 1].share
                },
        decreases source@.len() - i,
    {
        let c = &source[i];
        creators.push(Creator { address: c.address, verified: false, share: c.share });
        i = i + 1;
    }
    creators
}

/// Whether a mint is refused for want of a gateway token: the machine has a
/// gatekeeper and the transaction presents no valid gateway token for it.
pub open spec fn gateway_refused(cm: CandyMachine, has_gateway_token: bool) -> bool {
    cm.data.gatekeeper is Some && !has_gateway_token
}

/// Everything of minting a token that happens in the candy machine itself: refuses
/// an empty machine, then a mint without a gateway token when the machine has a
/// gatekeeper, picks the config line from the recent blockhash, refuses a
/// transaction that does not call the burner or calls an unknown program, counts the
/// token as redeemed, and lists the token's creators and update authority, which is
/// the machine's authority when it retains it. `has_gateway_token` tells whether the
/// transaction presents a valid gateway token for the machine's gatekeeper network;
/// `instruction_sysvar` is the transaction's serialized instruction list.
pub fn mint_nft(
    candy_machine: &mut CandyMachine,
    account: &mut Vec<u8>,
    recent_blockhashes: &[u8],
    instruction_sysvar: &[u8],
    candy_machine_creator: Pubkey,
    update_authority: Pubkey,
    has_gateway_token: bool,
) -> (r: Result<MintPlan, MintError>)
    requires
        old(candy_machine).items_redeemed < old(candy_machine).data.items_available
            && !gateway_refused(*old(candy_machine), has_gateway_token) ==> recent_blockhashes@.len()
            >= 16,
        old(candy_machine).items_redeemed < old(candy_machine).data.items_available
            && !gateway_refused(*old(candy_machine), has_gateway_token)
            && old(candy_machine).data.hidden_settings is None ==> config_line_fits(
            old(account)@,
            old(candy_machine).data.items_available as int,
            mint_index(recent_blockhashes@, old(candy_machine).data.items_available as int),
        ),
    ensures
        old(candy_machine).items_redeemed >= old(candy_machine).data.items_available ==> {
            &&& r == Err::<MintPlan, MintError>(MintError::Refused(ErrorCode::CandyMachineEmpty))
            &&& final(account)@ == old(account)@
        },
        old(candy_machine).items_redeemed < old(candy_machine).data.items_available
            && gateway_refused(*old(candy_machine), has_gateway_token) ==> {
            &&& r == Err::<MintPlan, MintError>(MintError::Refused(ErrorCode::GatewayTokenMissing))
            &&& final(account)@ == old(account)@
        },
        old(candy_machine).items_redeemed < old(candy_machine).data.items_available
            && !gateway_refused(*old(candy_machine), has_gateway_token) ==> exists|
            line: Result<ConfigLine, ErrorCode>,
        |
            #[trigger] config_line_outcome(
                *old(candy_machine),
                old(account)@,
                final(account)@,
                mint_index(recent_blockhashes@, old(candy_machine).data.items_available as int),
                old(candy_machine).items_redeemed as int,
                line,
            ) && mint_result(line, transaction_verdict(instruction_sysvar@), r),
        r is Err ==> *final(candy_machine) == *old(candy_machine),
        r matches Ok(plan) ==> {
            &&& old(candy_machine).items_redeemed < old(candy_machine).data.items_available
            &&& !gateway_refused(*old(candy_machine), has_gateway_token)
            &&& transaction_verdict(instruction_sysvar@) == InstructionCheck::Approved
            &&& final(candy_machine).items_redeemed <= final(candy_machine).data.items_available
            &&& *final(candy_machine) == (CandyMachine {
                items_redeemed: (old(candy_machine).items_redeemed + 1) as u64,
                ..*old(candy_machine)
            })
            &&& minted_creators(candy_machine_creator, old(candy_machine).data.creators@, plan.creators@)
            &&& plan.update_authority == if old(candy_machine).data.retain_authority {
                old(candy_machine).authority
            } else {
                update_authority
            }
        },
{
    if candy_machine.items_redeemed >= candy_machine.data.items_available {
        return Err(MintError::Refused(ErrorCode::CandyMachineEmpty));
    }
    if candy_machine.data.gatekeeper.is_some() && !has_gateway_token {
        return Err(MintError::Refused(ErrorCode::GatewayTokenMissing));
    }
    let index = read_le_u64(recent_blockhashes, 8);
    let modded = match index.checked_rem(candy_machine.data.items_available) {
        Some(m) => #[verifier::truncate] (m as usize),
        None => return Err(MintError::Refused(ErrorCode::NumericalOverflowError)),
    };
    proof {
        let items = candy_machine.data.items_available as int;
        assert(account.len() == account@.len());
        if candy_machine.data.hidden_settings is None {
            assert(modded == index % candy_machine.data.items_available);
        }
    }
    let taken = get_config_line(candy_machine, account, modded, candy_machine.items_redeemed);
    let ghost line = taken;
    assert(config_line_outcome(
        *old(candy_machine),
        old(account)@,
        account@,
        mint_index(recent_blockhashes@, old(candy_machine).data.items_available as int),
        old(candy_machine).items_redeemed as int,
        line,
    ));
    let config_line = match taken {
        Ok(line) => line,
        Err(e) => return Err(MintError::Refused(e)),
    };
    match check_mint_transaction(instruction_sysvar) {
        InstructionCheck::Approved => {},
        InstructionCheck::NoBurnInstruction => return Err(
            MintError::Refused(ErrorCode::NoBurnInstruction),
        ),
        InstructionCheck::SuspiciousTransaction => return Err(
            MintError::Refused(ErrorCode::SuspiciousTransaction),
        ),
        InstructionCheck::InvalidAccountData => return Err(MintError::InvalidAccountData),
        InstructionCheck::Malformed => return Err(MintError::UnreadableInstruction),
    }
    candy_machine.items_redeemed = candy_machine.items_redeemed + 1;
    let creators = minted_creator_list(candy_machine_creator, &candy_machine.data.creators);
    let mut new_update_authority = candy_machine.authority;
    if !candy_machine.data.retain_authority {
        new_update_authority = update_authority;
    }
    Ok(MintPlan { config_line, creators, update_authority: new_update_authority })
}

/// An account of the size that `get_space_for_candy` asks for holds everything that
/// the machine's instructions read and write: its state, the config lines, the
/// length of the bitmask of added lines and both bitmasks.
pub proof fn lemma_space_for_candy_fits(data: CandyMachineData)
    requires
        data.hidden_settings is None,
    ensures
        minted_mask_start(data.items_available as int) + (data.items_available + 7) / 8 <= space_for_candy(data),
        added_mask_len_offset(data.items_available as int) + 4 <= space_for_candy(data),
        crate::layout::added_mask_start(data.items_available as int) + (data.items_available + 7) / 8
            <= space_for_candy(data),
{
    let n = data.items_available as int;
    assert((n + 7) / 8 <= n / 8 + 1);
}

} // verus!
