//! Rules, state machines and data structures of a board farm: a server that
//! shares consoles, actuators, volumes, keyboards, mice and cameras of
//! development boards, and the client and command line tools that use it.

pub mod auth_cli;
pub mod authentication;
pub mod batch_writer;
pub mod bits;
pub mod cli;
pub mod client;
pub mod device;
pub mod directory;
pub mod fastboot;
pub mod gpio;
pub mod hid;
pub mod hifive_p550_mcu;
pub mod ids;
pub mod images;
pub mod keyboard;
pub mod kvm;
pub mod media;
pub mod oidc;
pub mod path;
pub mod providers;
pub mod registry;
pub mod remote;
pub mod serial;
pub mod server;
pub mod sessions;
pub mod sparse;
pub mod status;
pub mod text;
pub mod ti_xds;
pub mod udev;
pub mod ui;
pub mod ui_term;
pub mod urls;
pub mod volume_io;
pub mod volumes;
pub mod web;
