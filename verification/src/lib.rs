//! Resolution of the persistent name of a network interface from its
//! hardware address.
//!
//! Two sources are consulted, in this order: the kernel command line, where
//! `ifname=<name>:<mac>` hints a name, and a directory of `ifcfg-*` files,
//! each of which binds a `DEVICE=` name to a `HWADDR=` address. The first
//! source that names the address decides.
pub mod cmdline;
pub mod error;
pub mod ifcfg;
pub mod mac;
pub mod name;
pub mod resolver;
pub mod scanner;
pub mod text;

pub use crate::cmdline::find_device_name;
pub use crate::error::ResolveError;
pub use crate::ifcfg::{extract, parse_line, ConfigEntry};
pub use crate::mac::{normalize, MacAddress};
pub use crate::name::{is_kernel_style, DeviceName};
pub use crate::resolver::{Request, Resolver, Step};
pub use crate::scanner::{config_file_name, list_config_files};
