pub mod text;
pub mod numeric;
pub mod endpoints;
pub mod config;
pub mod data;
pub mod token;
pub mod ball;
pub mod service;
pub mod clock;
