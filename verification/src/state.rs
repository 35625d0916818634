//! The candy machine's settings and state, as plain values.
use vstd::prelude::*;

verus! {

/// The 32 bytes of an account address.
pub type Pubkey = [u8; 32];

/// A creator listed in a token's metadata.
#[derive(Clone, Debug)]
pub struct Creator {
    pub address: Pubkey,
    pub verified: bool,
    /// In percentages, not basis points.
    pub share: u8,
}

/// Whether a whitelist token is burned on each mint.
#[derive(Clone, Copy, Debug, PartialEq, Eq, Structural)]
pub enum WhitelistMintMode {
    BurnEveryTime,
    NeverBurn,
}

/// Settings of a mint reserved to holders of a whitelist token.
#[derive(Clone, Debug)]
pub struct WhitelistMintSettings {
    pub mode: WhitelistMintMode,
    pub mint: Pubkey,
    pub presale: bool,
    pub discount_price: Option<u64>,
}

/// Configuration of the gatekeeper that a mint may require.
#[derive(Clone, Debug)]
pub struct GatekeeperConfig {
    /// The network of the gateway token required.
    pub gatekeeper_network: Pubkey,
    /// Whether the token should expire after minting.
    pub expire_on_use: bool,
}

/// What ends a sale.
#[derive(Clone, Copy, Debug, PartialEq, Eq, Structural)]
pub enum EndSettingType {
    Date,
    Amount,
}

/// When a sale ends.
#[derive(Clone, Debug)]
pub struct EndSettings {
    pub end_setting_type: EndSettingType,
    pub number: u64,
}

/// Settings of a large mint whose tokens all share one name and URI.
#[derive(Clone, Debug)]
pub struct HiddenSettings {
    pub name: String,
    pub uri: String,
    pub hash: [u8; 32],
}

/// The settings of a candy machine.
#[derive(Clone, Debug)]
pub struct CandyMachineData {
    pub uuid: String,
    pub price: u64,
    /// The symbol of the tokens.
    pub symbol: String,
    /// Royalty basis points that go to creators in secondary sales (0-10000).
    pub seller_fee_basis_points: u16,
    pub max_supply: u64,
    pub is_mutable: bool,
    pub retain_authority: bool,
    pub go_live_date: Option<i64>,
    pub end_settings: Option<EndSettings>,
    pub creators: Vec<Creator>,
    pub hidden_settings: Option<HiddenSettings>,
    pub whitelist_mint_settings: Option<WhitelistMintSettings>,
    pub items_available: u64,
    /// When set, a gateway token is required to mint.
    pub gatekeeper: Option<GatekeeperConfig>,
}

/// The state of a candy machine, as stored at the start of its account.
#[derive(Clone, Debug)]
pub struct CandyMachine {
    pub authority: Pubkey,
    pub wallet: Pubkey,
    pub token_mint: Option<Pubkey>,
    pub items_redeemed: u64,
    pub data: CandyMachineData,
}

/// The name and URI of a token that is yet to be minted.
#[derive(Clone, Debug)]
pub struct ConfigLine {
    pub name: String,
    /// URI of the JSON that describes the token.
    pub uri: String,
}

/// What the burner reads of a token account.
#[derive(Clone, Copy, Debug)]
pub struct TokenAccountInfo {
    pub mint: Pubkey,
    pub owner: Pubkey,
    pub initialized: bool,
}

/// What the burner reads of a token's metadata.
#[derive(Clone, Debug)]
pub struct MetadataInfo {
    pub mint: Pubkey,
    /// The token's creators, in order, if it lists any.
    pub creators: Option<Vec<Creator>>,
}

} // verus!
