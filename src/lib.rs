pub mod backtest;
pub mod decimal;
pub mod error;
pub mod get_price;
pub mod price_manipulation;
pub mod risk_management;
pub mod ta_rs;
pub mod utils;
