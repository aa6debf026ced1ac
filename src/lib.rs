//! A ledger engine: accounts, transactions with fees, exact money, the
//! importers of donation and payout exports, and the flat report.

pub mod date;
pub mod dedup;
pub mod donations;
pub mod export;
pub mod import;
pub mod info;
pub mod journal;
pub mod ledger;
pub mod money;
pub mod payout;
pub mod table;
pub mod text;
pub mod utils;
