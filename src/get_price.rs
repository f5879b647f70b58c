pub mod historical_price;
