pub mod builder;
pub mod health;
pub mod manager;
