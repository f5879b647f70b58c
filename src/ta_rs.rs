pub mod cdc_action_zone;
pub mod ma;
