//! Skill descriptions: categories, typed inputs and outputs, placeholders
//! the formatting settings a skill may carry, and the blank packages a
//! skill starts from.
pub mod templates;
pub mod types;
pub mod validator;
