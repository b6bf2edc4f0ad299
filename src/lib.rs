pub mod amount;
pub mod flags;
pub mod report;
pub mod sizing;
pub mod text;
