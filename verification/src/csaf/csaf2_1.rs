pub mod getter_implementations;
pub mod schema;
pub mod validation;
