pub mod attrs;
pub mod error;
pub mod lookup;
pub mod parse;
