pub mod return_series;
pub mod risks;
