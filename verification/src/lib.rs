pub mod embedding;
pub mod fetch;
pub mod rank;
pub mod search;
pub mod source;
pub mod store;
pub mod text;
pub mod ui;
pub mod xml;
