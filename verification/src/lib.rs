//! Qt-independent Projecteur domain logic: presenter registries, HID and
//! HID++ decoding, Linux input events, input mapping and configuration files.

pub mod cli;
pub mod commands;
pub mod config;
pub mod control;
pub mod device_scan;
pub mod editor;
pub mod forwarding;
pub mod hid_report;
pub mod hidpp;
pub mod input_event;
pub mod input_mapping;
pub mod labels;
pub mod kconfig;
pub mod order;
pub mod overlay;
pub mod preferences;
pub mod presenter;
pub mod qt_stream;
pub mod registry;
pub mod screencast;
pub mod settings;
pub mod text;
pub mod timer;
pub mod uinput;

pub use registry::{
    all_supported_devices, parse_supported_devices, Bus, DeviceId, ParseDeviceError, SupportedDevice,
};

use vstd::prelude::*;

verus! {

} // verus!
