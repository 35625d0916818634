//! Errors of the two programs, each reported as a custom program error number.
use vstd::prelude::*;

verus! {

/// Reasons for which the burner refuses a set of tokens.
#[derive(Clone, Copy, Debug, PartialEq, Eq, Structural)]
pub enum MergeError {
    NotEnoughNftsError,
    NotCyberGothicaNft,
    MintMismatch,
    WrongOwner,
    SuspiciousAccounts,
}

impl MergeError {
    /// The custom program error number of this error: its position in the enum.
    pub open spec fn spec_code(self) -> u32 {
        match self {
            MergeError::NotEnoughNftsError => 0,
            MergeError::NotCyberGothicaNft => 1,
            MergeError::MintMismatch => 2,
            MergeError::WrongOwner => 3,
            MergeError::SuspiciousAccounts => 4,
        }
    }

    /// The custom program error number that this error is reported as.
    pub fn code(&self) -> (r: u32)
        ensures
            r == self.spec_code(),
    {
        match self {
            MergeError::NotEnoughNftsError => 0,
            MergeError::NotCyberGothicaNft => 1,
            MergeError::MintMismatch => 2,
            MergeError::WrongOwner => 3,
            MergeError::SuspiciousAccounts => 4,
        }
    }
}

/// Distinct errors are reported as distinct numbers.
pub proof fn lemma_merge_codes_distinct(a: MergeError, b: MergeError)
    ensures
        a.spec_code() == b.spec_code() <==> a == b,
{
}


impl MergeError {
    /// The error reported as custom program error number `n`, if any.
    pub open spec fn spec_from_code(n: u32) -> Option<MergeError> {
        match n {
            0 => Some(MergeError::NotEnoughNftsError),
            1 => Some(MergeError::NotCyberGothicaNft),
            2 => Some(MergeError::MintMismatch),
            3 => Some(MergeError::WrongOwner),
            4 => Some(MergeError::SuspiciousAccounts),
            _ => None,
        }
    }

    /// The error that custom program error number `n` stands for, if any.
    pub fn from_code(n: u32) -> (r: Option<MergeError>)
        ensures
            r == MergeError::spec_from_code(n),
    {
        match n {
            0 => Some(MergeError::NotEnoughNftsError),
            1 => Some(MergeError::NotCyberGothicaNft),
            2 => Some(MergeError::MintMismatch),
            3 => Some(MergeError::WrongOwner),
            4 => Some(MergeError::SuspiciousAccounts),
            _ => None,
        }
    }
}

/// Every burner error is read back from the number it is reported as, and no other
/// number stands for one of them.
pub proof fn lemma_merge_codes_invertible(e: MergeError, n: u32)
    ensures
        MergeError::spec_from_code(e.spec_code()) == Some(e),
        MergeError::spec_from_code(n) matches Some(f) ==> f.spec_code() == n,
        MergeError::spec_from_code(n) is None <==> n >= 5,
{
}

/// Reasons for which the candy machine refuses an instruction.
#[derive(Clone, Copy, Debug, PartialEq, Eq, Structural)]
pub enum ErrorCode {
    NoBurnInstruction,
    IncorrectOwner,
    Uninitialized,
    MintMismatch,
    IndexGreaterThanLength,
    NumericalOverflowError,
    TooManyCreators,
    UuidMustBeExactly6Length,
    NotEnoughTokens,
    NotEnoughSOL,
    TokenTransferFailed,
    CandyMachineEmpty,
    CandyMachineNotLive,
    HiddenSettingsConfigsDoNotHaveConfigLines,
    CannotChangeNumberOfLines,
    DerivedKeyInvalid,
    PublicKeyMismatch,
    NoWhitelistToken,
    TokenBurnFailed,
    GatewayAppMissing,
    GatewayTokenMissing,
    GatewayTokenExpireTimeInvalid,
    NetworkExpireFeatureMissing,
    CannotFindUsableConfigLine,
    InvalidString,
    SuspiciousTransaction,
    CannotSwitchToHiddenSettings,
    /// Royalty basis points above 10000.
    InvalidBasisPoints,
}

impl ErrorCode {
    /// The custom program error number of this error: its position in the enum.
    pub open spec fn spec_code(self) -> u32 {
        match self {
            ErrorCode::NoBurnInstruction => 0,
            ErrorCode::IncorrectOwner => 1,
            ErrorCode::Uninitialized => 2,
            ErrorCode::MintMismatch => 3,
            ErrorCode::IndexGreaterThanLength => 4,
            ErrorCode::NumericalOverflowError => 5,
            ErrorCode::TooManyCreators => 6,
            ErrorCode::UuidMustBeExactly6Length => 7,
            ErrorCode::NotEnoughTokens => 8,
            ErrorCode::NotEnoughSOL => 9,
            ErrorCode::TokenTransferFailed => 10,
            ErrorCode::CandyMachineEmpty => 11,
            ErrorCode::CandyMachineNotLive => 12,
            ErrorCode::HiddenSettingsConfigsDoNotHaveConfigLines => 13,
            ErrorCode::CannotChangeNumberOfLines => 14,
            ErrorCode::DerivedKeyInvalid => 15,
            ErrorCode::PublicKeyMismatch => 16,
            ErrorCode::NoWhitelistToken => 17,
            ErrorCode::TokenBurnFailed => 18,
            ErrorCode::GatewayAppMissing => 19,
            ErrorCode::GatewayTokenMissing => 20,
            ErrorCode::GatewayTokenExpireTimeInvalid => 21,
            ErrorCode::NetworkExpireFeatureMissing => 22,
            ErrorCode::CannotFindUsableConfigLine => 23,
            ErrorCode::InvalidString => 24,
            ErrorCode::SuspiciousTransaction => 25,
            ErrorCode::CannotSwitchToHiddenSettings => 26,
            ErrorCode::InvalidBasisPoints => 27,
        }
    }

    /// The custom program error number that this error is reported as.
    pub fn code(&self) -> (r: u32)
        ensures
            r == self.spec_code(),
    {
        match self {
            ErrorCode::NoBurnInstruction => 0,
            ErrorCode::IncorrectOwner => 1,
            ErrorCode::Uninitialized => 2,
            ErrorCode::MintMismatch => 3,
            ErrorCode::IndexGreaterThanLength => 4,
            ErrorCode::NumericalOverflowError => 5,
            ErrorCode::TooManyCreators => 6,
            ErrorCode::UuidMustBeExactly6Length => 7,
            ErrorCode::NotEnoughTokens => 8,
            ErrorCode::NotEnoughSOL => 9,
            ErrorCode::TokenTransferFailed => 10,
            ErrorCode::CandyMachineEmpty => 11,
            ErrorCode::CandyMachineNotLive => 12,
            ErrorCode::HiddenSettingsConfigsDoNotHaveConfigLines => 13,
            ErrorCode::CannotChangeNumberOfLines => 14,
            ErrorCode::DerivedKeyInvalid => 15,
            ErrorCode::PublicKeyMismatch => 16,
            ErrorCode::NoWhitelistToken => 17,
            ErrorCode::TokenBurnFailed => 18,
            ErrorCode::GatewayAppMissing => 19,
            ErrorCode::GatewayTokenMissing => 20,
            ErrorCode::GatewayTokenExpireTimeInvalid => 21,
            ErrorCode::NetworkExpireFeatureMissing => 22,
            ErrorCode::CannotFindUsableConfigLine => 23,
            ErrorCode::InvalidString => 24,
            ErrorCode::SuspiciousTransaction => 25,
            ErrorCode::CannotSwitchToHiddenSettings => 26,
            ErrorCode::InvalidBasisPoints => 27,
        }
    }
}

/// Distinct errors are reported as distinct numbers.
pub proof fn lemma_minter_codes_distinct(a: ErrorCode, b: ErrorCode)
    ensures
        a.spec_code() == b.spec_code() <==> a == b,
{
}

impl ErrorCode {
    /// The error reported as custom program error number `n`, if any.
    pub open spec fn spec_from_code(n: u32) -> Option<ErrorCode> {
        match n {
            0 => Some(ErrorCode::NoBurnInstruction),
            1 => Some(ErrorCode::IncorrectOwner),
            2 => Some(ErrorCode::Uninitialized),
            3 => Some(ErrorCode::MintMismatch),
            4 => Some(ErrorCode::IndexGreaterThanLength),
            5 => Some(ErrorCode::NumericalOverflowError),
            6 => Some(ErrorCode::TooManyCreators),
            7 => Some(ErrorCode::UuidMustBeExactly6Length),
            8 => Some(ErrorCode::NotEnoughTokens),
            9 => Some(ErrorCode::NotEnoughSOL),
            10 => Some(ErrorCode::TokenTransferFailed),
            11 => Some(ErrorCode::CandyMachineEmpty),
            12 => Some(ErrorCode::CandyMachineNotLive),
            13 => Some(ErrorCode::HiddenSettingsConfigsDoNotHaveConfigLines),
            14 => Some(ErrorCode::CannotChangeNumberOfLines),
            15 => Some(ErrorCode::DerivedKeyInvalid),
            16 => Some(ErrorCode::PublicKeyMismatch),
            17 => Some(ErrorCode::NoWhitelistToken),
            18 => Some(ErrorCode::TokenBurnFailed),
            19 => Some(ErrorCode::GatewayAppMissing),
            20 => Some(ErrorCode::GatewayTokenMissing),
            21 => Some(ErrorCode::GatewayTokenExpireTimeInvalid),
            22 => Some(ErrorCode::NetworkExpireFeatureMissing),
            23 => Some(ErrorCode::CannotFindUsableConfigLine),
            24 => Some(ErrorCode::InvalidString),
            25 => Some(ErrorCode::SuspiciousTransaction),
            26 => Some(ErrorCode::CannotSwitchToHiddenSettings),
            27 => Some(ErrorCode::InvalidBasisPoints),
            _ => None,
        }
    }

    /// The error that custom program error number `n` stands for, if any.
    pub fn from_code(n: u32) -> (r: Option<ErrorCode>)
        ensures
            r == ErrorCode::spec_from_code(n),
    {
        match n {
            0 => Some(ErrorCode::NoBurnInstruction),
            1 => Some(ErrorCode::IncorrectOwner),
            2 => Some(ErrorCode::Uninitialized),
            3 => Some(ErrorCode::MintMismatch),
            4 => Some(ErrorCode::IndexGreaterThanLength),
            5 => Some(ErrorCode::NumericalOverflowError),
            6 => Some(ErrorCode::TooManyCreators),
            7 => Some(ErrorCode::UuidMustBeExactly6Length),
            8 => Some(ErrorCode::NotEnoughTokens),
            9 => Some(ErrorCode::NotEnoughSOL),
            10 => Some(ErrorCode::TokenTransferFailed),
            11 => Some(ErrorCode::CandyMachineEmpty),
            12 => Some(ErrorCode::CandyMachineNotLive),
            13 => Some(ErrorCode::HiddenSettingsConfigsDoNotHaveConfigLines),
            14 => Some(ErrorCode::CannotChangeNumberOfLines),
            15 => Some(ErrorCode::DerivedKeyInvalid),
            16 => Some(ErrorCode::PublicKeyMismatch),
            17 => Some(ErrorCode::NoWhitelistToken),
            18 => Some(ErrorCode::TokenBurnFailed),
            19 => Some(ErrorCode::GatewayAppMissing),
            20 => Some(ErrorCode::GatewayTokenMissing),
            21 => Some(ErrorCode::GatewayTokenExpireTimeInvalid),
            22 => Some(ErrorCode::NetworkExpireFeatureMissing),
            23 => Some(ErrorCode::CannotFindUsableConfigLine),
            24 => Some(ErrorCode::InvalidString),
            25 => Some(ErrorCode::SuspiciousTransaction),
            26 => Some(ErrorCode::CannotSwitchToHiddenSettings),
            27 => Some(ErrorCode::InvalidBasisPoints),
            _ => None,
        }
    }
}

/// Every candy machine error is read back from the number it is reported as, and no other
/// number stands for one of them.
pub proof fn lemma_minter_codes_invertible(e: ErrorCode, n: u32)
    ensures
        ErrorCode::spec_from_code(e.spec_code()) == Some(e),
        ErrorCode::spec_from_code(n) matches Some(f) ==> f.spec_code() == n,
        ErrorCode::spec_from_code(n) is None <==> n >= 28,
{
}

} // verus!
