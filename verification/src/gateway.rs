//! Gateway tokens: the pass that a candy machine with a gatekeeper asks of a minter,
//! issued by the identity.com gateway program.
//!
//! A gateway token account holds, in order: a version byte, an optional parent
//! token (a tag byte, then the address when the tag is 1), the owner's wallet, an
//! optional owner identity, the gatekeeper network, the issuing gatekeeper, a state
//! byte (0 while active) and an optional expiry time (a tag byte, then a
//! little-endian `i64` when the tag is 1).
use vstd::prelude::*;

use crate::layout::{le_u32_at, le_u32_bytes, le_u64_at, read_le_u64};
use crate::state::Pubkey;

verus! {

/// Address of the gateway program, `gatem74V238djXdzWnJf94Wo1DcnuGkfijbf3AuBhfs`.
pub open spec fn gateway_program_bytes() -> Seq<u8> {
    seq![10u8, 35, 248, 193, 156, 10, 77, 255, 245, 245, 47, 38, 174, 200, 84, 58,
        98, 42, 12, 197, 198, 30, 81, 25, 62, 157, 73, 19, 220, 196, 171, 94]
}

/// Where an optional address that starts at `at` ends, or none when its tag is
/// neither 0 nor 1 or lies outside the data.
pub open spec fn optional_key_end(d: Seq<u8>, at: int) -> Option<int> {
    if 0 <= at < d.len() {
        if d[at] == 0 {
            Some(at + 1)
        } else if d[at] == 1 {
            Some(at + 33)
        } else {
            None
        }
    } else {
        None
    }
}

/// The owner's wallet, the gatekeeper network, the state and the expiry time of the
/// gateway token held in `d`, or none when `d` does not hold one.
pub open spec fn gateway_token_fields(d: Seq<u8>) -> Option<(Seq<u8>, Seq<u8>, u8, Option<i64>)> {
    match optional_key_end(d, 1) {
        None => None,
        Some(wallet_at) => match optional_key_end(d, wallet_at + 32) {
            None => None,
            Some(network_at) => {
                let state_at = network_at + 64;
                if state_at + 2 > d.len() {
                    None
                } else {
                    let wallet = d.subrange(wallet_at, wallet_at + 32);
                    let network = d.subrange(network_at, network_at + 32);
                    if d[state_at + 1] == 0 {
                        Some((wallet, network, d[state_at], None))
                    } else if d[state_at + 1] == 1 && state_at + 10 <= d.len() {
                        Some(
                            (
                                wallet,
                                network,
                                d[state_at],
                                Some((le_u64_at(d, state_at + 2) as u64) as i64),
                            ),
                        )
                    } else {
                        None
                    }
                }
            },
        },
    }
}

/// Whether an account owned by `owner` with data `d` is a valid gateway token of the
/// gatekeeper `network` for `wallet` at time `now`: issued by the gateway program,
/// to that wallet, on that network, active, and not expired.
pub open spec fn gateway_token_valid(
    owner: Seq<u8>,
    d: Seq<u8>,
    network: Seq<u8>,
    wallet: Seq<u8>,
    now: i64,
) -> bool {
    &&& owner == gateway_program_bytes()
    &&& gateway_token_fields(d) matches Some((w, n, state, expiry))
    &&& w == wallet
    &&& n == network
    &&& state == 0
    &&& match expiry {
        None => true,
        Some(e) => e > now,
    }
}

/// Whether the 32 bytes of `d` at `at` are `key`.
fn key_at(d: &[u8], at: usize, key: &Pubkey) -> (b: bool)
    requires
        at + 32 <= d@.len(),
    ensures
        b == (d@.subrange(at as int, at + 32) == key@),
{
    let mut i: usize = 0;
    let len = d.len();
    while i < 32
        invariant
            i <= 32,
            len == d@.len(),
            at + 32 <= d@.len(),
            forall|j: int| 0 <= j < i ==> d@[at + j] == key@[j],
        decreases 32 - i,
    {
        if d[at + i] != key[i] {
            assert(d@.subrange(at as int, at + 32)[i as int] != key@[i as int]);
            return false;
        }
        i = i + 1;
    }
    assert(d@.subrange(at as int, at + 32) =~= key@);
    true
}

/// Where an optional address that starts at `at` ends.
fn optional_key_end_in(d: &[u8], at: usize) -> (r: Option<usize>)
    requires
        at + 33 <= usize::MAX,
    ensures
        match optional_key_end(d@, at as int) {
            None => r is None,
            Some(e) => r == Some(e as usize),
        },
{
    if at >= d.len() {
        None
    } else if d[at] == 0 {
        Some(at + 1)
    } else if d[at] == 1 {
        Some(at + 33)
    } else {
        None
    }
}

/// Whether the account (owner `owner`, data `d`) is a valid gateway token of the
/// gatekeeper `network` for `wallet` at time `now`.
pub fn gateway_token_valid_in(owner: &Pubkey, d: &[u8], network: &Pubkey, wallet: &Pubkey, now: i64) -> (b:
    bool)
    ensures
        b == gateway_token_valid(owner@, d@, network@, wallet@, now),
{
    let gateway: [u8; 32] = [10u8, 35, 248, 193, 156, 10, 77, 255, 245, 245, 47, 38, 174, 200, 84, 58,
        98, 42, 12, 197, 198, 30, 81, 25, 62, 157, 73, 19, 220, 196, 171, 94];
    assert(gateway@ =~= gateway_program_bytes());
    if !crate::keys::keys_equal(owner, &gateway) {
        return false;
    }
    proof {
        assert(d.len() == d@.len());
    }
    let wallet_at = match optional_key_end_in(d, 1) {
        Some(e) => e,
        None => return false,
    };
    if wallet_at + 32 > d.len() {
        // The wallet is cut off, so no tag after it can be read.
        return false;
    }
    let network_at = match optional_key_end_in(d, wallet_at + 32) {
        Some(e) => e,
        None => return false,
    };
    if network_at > d.len() || d.len() - network_at < 66 {
        return false;
    }
    let state_at = network_at + 64;
    let state = d[state_at];
    let expiry: Option<i64> = if d[state_at + 1] == 0 {
        None
    } else if d[state_at + 1] == 1 && d.len() - state_at >= 10 {
        let v = read_le_u64(d, state_at + 2);
        Some(v as i64)
    } else {
        return false;
    };
    let ghost fields = gateway_token_fields(d@);
    assert(fields == Some((
        d@.subrange(wallet_at as int, wallet_at + 32),
        d@.subrange(network_at as int, network_at + 32),
        state,
        expiry,
    )));
    let unexpired = match expiry {
        None => true,
        Some(e) => e > now,
    };
    key_at(d, wallet_at, wallet) && key_at(d, network_at, network) && state == 0 && unexpired
}

/// An optional address as a gateway token stores it: tag 0, or tag 1 and the address.
pub open spec fn optional_key_bytes(k: Option<Seq<u8>>) -> Seq<u8> {
    match k {
        None => seq![0u8],
        Some(a) => seq![1u8] + a,
    }
}

/// The little-endian bytes of `e`, in two's complement.
pub open spec fn le_i64_bytes(e: i64) -> Seq<u8> {
    let v = e as u64;
    le_u32_bytes((v % 4294967296) as int) + le_u32_bytes((v / 4294967296) as int)
}

/// The bytes of a gateway token with these fields, version 0.
pub open spec fn gateway_token_bytes(
    parent: Option<Seq<u8>>,
    wallet: Seq<u8>,
    identity: Option<Seq<u8>>,
    network: Seq<u8>,
    issuer: Seq<u8>,
    state: u8,
    expiry: Option<i64>,
) -> Seq<u8> {
    seq![0u8] + optional_key_bytes(parent) + wallet + optional_key_bytes(identity) + network + issuer
        + seq![state] + match expiry {
        None => seq![0u8],
        Some(e) => seq![1u8] + le_i64_bytes(e),
    }
}

/// A gateway token reads back as the fields it was written with, whatever its
/// parent token and owner identity; and it is valid exactly when the gateway program
/// owns it, it names the wallet and the gatekeeper network asked for, it is active,
/// and it has no expiry time or one later than now.
pub proof fn lemma_gateway_token_read_back(
    parent: Option<Seq<u8>>,
    wallet: Seq<u8>,
    identity: Option<Seq<u8>>,
    network: Seq<u8>,
    issuer: Seq<u8>,
    state: u8,
    expiry: Option<i64>,
    owner: Seq<u8>,
    network_asked: Seq<u8>,
    wallet_asked: Seq<u8>,
    now: i64,
)
    requires
        wallet.len() == 32,
        network.len() == 32,
        issuer.len() == 32,
        parent matches Some(k) ==> k.len() == 32,
        identity matches Some(k) ==> k.len() == 32,
    ensures
        gateway_token_fields(gateway_token_bytes(parent, wallet, identity, network, issuer, state, expiry))
            == Some((wallet, network, state, expiry)),
        gateway_token_valid(
            owner,
            gateway_token_bytes(parent, wallet, identity, network, issuer, state, expiry),
            network_asked,
            wallet_asked,
            now,
        ) <==> {
            &&& owner == gateway_program_bytes()
            &&& wallet == wallet_asked
            &&& network == network_asked
            &&& state == 0
            &&& expiry matches Some(e) ==> e > now
        },
{
    let d = gateway_token_bytes(parent, wallet, identity, network, issuer, state, expiry);
    let p = optional_key_bytes(parent);
    let q = optional_key_bytes(identity);
    let wallet_at: int = 1 + p.len() as int;
    let network_at: int = wallet_at + 32 + q.len();
    let state_at: int = network_at + 64;
    let head = seq![0u8] + p + wallet + q + network + issuer + seq![state];
    let tail = match expiry {
        None => seq![0u8],
        Some(e) => seq![1u8] + le_i64_bytes(e),
    };
    assert(d == head + tail);
    assert(head.len() == state_at + 1);
    assert(d[1] == p[0]);
    assert(optional_key_end(d, 1) == Some(wallet_at));
    assert(d[wallet_at + 32] == q[0]);
    assert(optional_key_end(d, wallet_at + 32) == Some(network_at));
    assert(d.subrange(wallet_at, wallet_at + 32) =~= wallet);
    assert(d.subrange(network_at, network_at + 32) =~= network);
    assert(d[state_at] == state);
    assert(d[state_at + 1] == tail[0]);
    if let Some(e) = expiry {
        let v = e as u64;
        let lo = (v % 4294967296) as int;
        let hi = (v / 4294967296) as int;
        crate::invariants::lemma_le_u32_bytes_value(lo);
        crate::invariants::lemma_le_u32_bytes_value(hi);
        let b = le_i64_bytes(e);
        assert(le_u32_at(d, state_at + 2) == lo) by {
            assert(d[state_at + 2] == b[0]);
            assert(d[state_at + 3] == b[1]);
            assert(d[state_at + 4] == b[2]);
            assert(d[state_at + 5] == b[3]);
        }
        assert(le_u32_at(d, state_at + 6) == hi) by {
            assert(d[state_at + 6] == b[4]);
            assert(d[state_at + 7] == b[5]);
            assert(d[state_at + 8] == b[6]);
            assert(d[state_at + 9] == b[7]);
        }
        assert(le_u64_at(d, state_at + 2) == v);
        assert((e as u64) as i64 == e) by (bit_vector);
    }
}

} // verus!
