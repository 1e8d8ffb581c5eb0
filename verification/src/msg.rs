use vstd::prelude::*;

verus! {

/// Creation parameters: the total supply becomes
/// `total_native_supply * 10^decimals` and is credited to the creator.
#[derive(Debug, Clone)]
pub struct InstantiateMsg {
    pub name: String,
    pub symbol: String,
    pub decimals: u8,
    pub total_native_supply: u128,
    /// Recorded for compatibility; the engine itself never mints on demand.
    pub minter: Option<String>,
}

/// The mutating operations. Token ids and fractional amounts are plain
/// integers; whether a single numeric argument means one or the other is
/// decided against the minted counter at execution time.
#[derive(Debug, Clone)]
pub enum ExecuteMsg {
    TransferFrom { owner: String, recipient: String, amount: u128 },
    Transfer { recipient: String, amount: u128 },
    TransferNft { recipient: String, token_id: u128 },
    Send { contract: String, amount: u128 },
    SendNft { contract: String, token_id: u128 },
    IncreaseAllowance { spender: String, amount: u128 },
    Approve { spender: String, token_id: u128 },
    ApproveAll { operator: String },
    RevokeAll { operator: String },
    SetWhitelist { target: String, state: bool },
    SetLock { token_id: u128, state: bool },
    SetBaseTokenUri { uri: String },
}

/// The read-only queries.
#[derive(Debug, Clone)]
pub enum QueryMsg {
    OwnerOf { token_id: u128, include_expired: Option<bool> },
    IsLocked { token_id: u128 },
    UserInfo { address: String },
    Allowance { owner: String, spender: String },
    ExtendedInfo { token_id: u128 },
    NumTokens {},
    ContractInfo {},
    NftInfo { token_id: u128 },
    Balance { address: String },
    TokenInfo {},
    AllNftInfo { token_id: u128, include_expired: Option<bool> },
    Tokens { owner: String, start_after: Option<u128>, limit: Option<u32> },
    AllTokens { start_after: Option<u128>, limit: Option<u32> },
    Minter {},
}

/// Who can mint these tokens.
#[derive(Debug, Clone)]
pub struct MinterResponse {
    pub minter: Option<String>,
}

/// The owned token ids and fractional balance of one identity.
#[derive(Debug, Clone)]
pub struct UserInfoResponse {
    pub owned: Vec<u128>,
    pub balances: u128,
}

/// The reverse-index position and owner of one token id.
#[derive(Debug, Clone)]
pub struct ExtendedInfoResponse {
    pub owned_index: u128,
    pub owner_of: String,
}

#[derive(Debug, Clone)]
pub struct ContractInfoResponse {
    pub name: String,
    pub symbol: String,
}

#[derive(Debug, Clone)]
pub struct NumTokensResponse {
    pub count: u128,
}

/// The metadata of one token: the host presents `base_uri` followed by the
/// decimal rendering of `token_id`.
#[derive(Debug, Clone)]
pub struct NftInfoResponse {
    pub base_uri: String,
    pub token_id: u128,
}

/// The owner of a token and its approved spenders (empty or one entry).
#[derive(Debug, Clone)]
pub struct OwnerOfResponse {
    pub owner: String,
    pub approvals: Vec<String>,
}

#[derive(Debug, Clone)]
pub struct BalanceResponse {
    pub balance: u128,
}

#[derive(Debug, Clone)]
pub struct TokenInfoResponse {
    pub name: String,
    pub symbol: String,
    pub decimals: u8,
    pub total_supply: u128,
}

#[derive(Debug, Clone)]
pub struct AllowanceResponse {
    pub allowance: u128,
}

/// A page of token ids.
#[derive(Debug, Clone)]
pub struct TokensResponse {
    pub tokens: Vec<u128>,
}

#[derive(Debug, Clone)]
pub struct AllNftInfoResponse {
    pub access: OwnerOfResponse,
    pub info: NftInfoResponse,
}

/// One answer per query.
#[derive(Debug, Clone)]
pub enum QueryAnswer {
    OwnerOf(OwnerOfResponse),
    IsLocked(bool),
    UserInfo(UserInfoResponse),
    Allowance(AllowanceResponse),
    ExtendedInfo(ExtendedInfoResponse),
    NumTokens(NumTokensResponse),
    ContractInfo(ContractInfoResponse),
    NftInfo(NftInfoResponse),
    Balance(BalanceResponse),
    TokenInfo(TokenInfoResponse),
    AllNftInfo(AllNftInfoResponse),
    Tokens(TokensResponse),
    AllTokens(TokensResponse),
    Minter(MinterResponse),
}

/// The label a transfer reports: how the caller phrased the operation.
#[derive(Debug, Clone, Copy, PartialEq, Eq, Structural)]
pub enum Action {
    Transfer,
    TransferFrom,
    Send,
}

/// One whole-token lifecycle event, emitted synchronously by the engine.
#[derive(Debug, Clone)]
pub enum NftEvent {
    Mint { to: String, token_id: u128 },
    Burn { from: String, token_id: u128 },
    Transfer { from: String, to: String, token_id: u128 },
}

/// The structured record a mutating operation returns: the action name,
/// the parties and amounts involved, and the whole-token sub-events the
/// operation produced, in order.
#[derive(Debug, Clone)]
pub enum Response {
    /// The entire supply was created and credited.
    Instantiated { to: String, amount: u128 },
    /// A fractional transfer ran through the synchronization engine;
    /// `spender` names the caller when an allowance was used.
    Transferred {
        label: Action,
        from: String,
        to: String,
        amount: u128,
        spender: Option<String>,
        events: Vec<NftEvent>,
    },
    /// A specific whole token moved; the balance moved by exactly one unit.
    TokenTransferred {
        label: Action,
        from: String,
        to: String,
        token_id: u128,
        amount: u128,
        events: Vec<NftEvent>,
    },
    /// A token approval or a fractional allowance was set.
    Approved { sender: String, spender: String, amount_or_id: u128 },
    /// A blanket operator grant was set or cleared.
    OperatorUpdated { sender: String, operator: String, state: bool },
    /// An exemption flag changed; enabling it burned every owned token.
    WhitelistUpdated { target: String, state: bool, events: Vec<NftEvent> },
    /// A token lock flag changed.
    LockUpdated { target: u128, state: bool },
    /// The base token metadata prefix changed.
    UriUpdated,
}

} // verus!
