pub mod bytes;
pub mod types;
pub mod model;
pub mod store;
pub mod config;
pub mod invariants;
pub mod contract;
pub mod laws;
pub mod access_laws;
pub mod query_laws;
pub mod effect_laws;


pub use config::ConfigModule;
pub use contract::TFNDigitalIdentityContract;
pub use types::{
    CallContext, ContractError, Identity, IdentityLink, LinkRequest, State, UnlinkRequest, Value,
};
