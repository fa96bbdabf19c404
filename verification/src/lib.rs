pub mod actions;
pub mod candidates;
pub mod import;
pub mod profile;
pub mod recency;
pub mod selection;
pub mod settings;
pub mod text;
pub mod tree;
