pub mod risk_reward_ratio;
