//! Form validation: validation rules, field errors and shared form fields.
use vstd::prelude::*;

pub mod error;
pub mod field;
pub mod validator;
