pub mod error;
pub mod logo;
pub mod history;
pub mod ledger;
pub mod allowance;
pub mod contract;
pub mod scan;
