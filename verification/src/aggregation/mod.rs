pub mod freq_table;
pub mod stem_leaf;
