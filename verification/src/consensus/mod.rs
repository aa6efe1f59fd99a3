pub mod chain;
pub mod pow;
