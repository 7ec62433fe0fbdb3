pub mod builder;
pub mod convert;
pub mod laws;
pub mod links;
pub mod templates;
pub mod text;
