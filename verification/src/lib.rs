//! Basket-backed share issuance: an account escrows a fixed basket of asset
//! amounts, receives a fixed number of pooled shares, and can later redeem
//! the shares to reclaim the basket.

pub mod account;
pub mod ledger;
pub mod registry;
pub mod basket;
pub mod gateway;
pub mod etf;
pub mod fungible_token;
pub mod laws;
