pub mod errors;
pub mod value;
pub mod table;
pub mod scope_model;
pub mod scope;
pub mod stream;
