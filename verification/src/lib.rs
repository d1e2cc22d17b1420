pub mod archive;
pub mod codec;
pub mod config;
pub mod delete;
pub mod errors;
pub mod experiment;
pub mod laws;
pub mod numbers;
pub mod run;
pub mod sets;
pub mod stats;
pub mod store;
pub mod table;
pub mod text;
pub mod util;
pub mod variable;
pub mod variables;
pub mod version;

pub use errors::Error;
