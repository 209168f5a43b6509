pub mod builder;
pub mod graph;
pub mod name_map;
pub mod parser;
pub mod pool;
pub mod topology;
pub mod types;
