pub mod cbr;
pub mod config;
pub mod deposits;
pub mod moex;
pub mod tbank;
