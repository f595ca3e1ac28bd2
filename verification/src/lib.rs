pub mod categorize;
pub mod cli;
pub mod content;
pub mod diff;
pub mod limits;
pub mod model;
pub mod output;
pub mod paths;
pub mod plugin;
pub mod progress;
pub mod review;
pub mod styled;
pub mod summary;
pub mod table;
pub mod text;
pub mod tree;
pub mod upgrade;
pub mod source;
