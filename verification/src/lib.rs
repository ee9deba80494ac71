pub mod chars;
pub mod duplicates;
pub mod laws;
pub mod nums;
pub mod pipeline;
pub mod record;
pub mod review;
pub mod ts;
pub mod validate;
