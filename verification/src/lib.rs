//! Salary Garden core: payroll truth, reward entitlement and the collected-wallet ledger.
pub mod money;
pub mod time;
pub mod application;
pub mod commands;
pub mod domain;
pub mod persistence;
pub mod services;
pub mod text;
