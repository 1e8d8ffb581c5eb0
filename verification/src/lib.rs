pub mod error;
pub mod execute;
pub mod laws;
pub mod msg;
pub mod query;
pub mod state;
pub mod store;

pub use error::ContractError;
pub use msg::{
    Action, AllNftInfoResponse, AllowanceResponse, BalanceResponse, ContractInfoResponse,
    ExecuteMsg, ExtendedInfoResponse, InstantiateMsg, MinterResponse, NftEvent, NftInfoResponse,
    NumTokensResponse, OwnerOfResponse, QueryAnswer, QueryMsg, Response, TokenInfoResponse,
    TokensResponse, UserInfoResponse,
};
pub use state::Ledger;
