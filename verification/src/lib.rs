pub mod entries;
pub mod error;
pub mod helpers;
pub mod json;
pub mod laws;
pub mod node;
pub mod number;
pub mod request;
pub mod rule;
pub mod shape;
pub mod text;
pub mod transform;

pub use error::{Error, LineColLocation};
pub use helpers::{extract_xt_param_value, flatten_json_array, merge_json_objects};
pub use json::Json;
pub use node::Node;
pub use request::XtqlQuery;
pub use rule::Rule;
pub use transform::{parse_value, parse_xtql, MAX_NESTING_DEPTH};
