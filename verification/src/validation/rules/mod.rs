//! The rules, by what they look at.
pub mod field_rules;
pub mod operator_rules;
pub mod performance_rules;
