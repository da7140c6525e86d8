pub mod closure;
pub mod controller;
pub mod discovery;
pub mod graph;
pub mod partition;
pub mod pool;
pub mod report;
pub mod seen;
