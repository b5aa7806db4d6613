//! Closed-loop temperature controller core: a single-wire bus protocol
//! engine with a DS18B20 sensor driver, CRC-8 integrity checking, device
//! enumeration, a fixed-point PID actuator decision, bounded message
//! channels, and a priority-ceiling resource model.

pub mod channel;
pub mod controller;
pub mod cooler;
pub mod delay;
pub mod ds18b20;
pub mod onewire;
pub mod sched;
pub mod storage;
pub mod temp_controller;
pub mod terminal;
pub mod thermometer;
