use vstd::prelude::*;

pub mod text;
pub mod paths;
pub mod json;
pub mod scheduler;
pub mod answer_schema;
pub mod brain;
pub mod frontend;
pub mod policy;
pub mod fs_write;
pub mod agent;

verus! {
} // verus!
