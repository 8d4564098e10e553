//! Verified core of a throughput tester for transparent links between a TCP
//! endpoint and a serial port: configuration parsing, the test plan of each
//! mode, and the data generator that both produces the test stream and checks
//! what comes back.

pub mod device;
pub mod generator;
pub mod plan;
pub mod sender;
pub mod text;
pub mod workers;
