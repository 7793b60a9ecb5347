pub mod broadcast;
pub mod client;
pub mod decimal;
pub mod market;
pub mod protocol;
pub mod quote;
pub mod text;
