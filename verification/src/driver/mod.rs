pub mod dummy;
pub mod loopback;
