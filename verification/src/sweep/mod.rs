pub mod encode;
pub mod feature_writer;
pub mod grid;
pub mod knobs;
pub mod lossless;
pub mod plan;
pub mod rows;
pub mod run;
