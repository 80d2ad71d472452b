pub mod csaf2_0;
pub mod csaf2_1;
pub mod equivalence;
pub mod getter_traits;
pub mod helpers;
pub mod id_set;
pub mod model;
pub mod product_helpers;
pub mod relation_map;
pub mod schema;
pub mod text;
pub mod timestamp;
pub mod validation;
pub mod validations;
