//! The rules that a sequence can be held to, and the contracts they share.

pub mod exclude_number_sets;
pub mod exclude_rule_trait;
pub mod no_duplicates;
pub mod number_pool;
pub mod number_pool_by_index;
pub mod number_range;
pub mod number_space;
pub mod odd_even;
pub mod odd_even_by_index;
pub mod random_number;
pub mod rule;
pub mod rule_trait;
pub mod sequential;
