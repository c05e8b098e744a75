//! The rules of two on-chain contracts, proved: a collector of protocol fees and a portfolio of
//! trading positions.

pub mod address;
pub mod badges;
pub mod fee_collector;
pub mod fee_laws;
pub mod host;
pub mod id_list;
pub mod portfolio_history;
pub mod portfolio_laws;
pub mod queries;
pub mod query_laws;
pub mod table;
pub mod user_portfolio;
