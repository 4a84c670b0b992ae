pub mod text;
pub mod numbers;
pub mod strmap;
pub mod config;
pub mod envfile;
pub mod routing;
pub mod runtime;
pub mod project;
pub mod cli;
pub mod responses;
