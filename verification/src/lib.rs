//! Dividend-investment analysis and forecasting.
//!
//! The crate ingests a spreadsheet of dividend-paying companies into a typed
//! table, screens the rows with yield, payout-ratio and growth filters, and
//! forecasts dividend income under compounding and tax assumptions.  All
//! monetary values and rates are fixed-point decimals (see [`fixed`]), so the
//! arithmetic is exact integer arithmetic with explicit rounding.

pub mod companies;
pub mod divdata;
pub mod fixed;
pub mod forecast;
pub mod lowrisk;
pub mod portfolio;
pub mod report;
pub mod screen;
pub mod select;
pub mod summary;
pub mod table;
