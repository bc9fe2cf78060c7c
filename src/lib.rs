pub mod counter;
pub mod parameter;
pub mod text;
pub mod query;
