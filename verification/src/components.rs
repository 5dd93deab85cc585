pub mod connection;
pub mod port;
pub mod ram;
