//! Verified core of a firmware-update web service: log message tagging and
//! decoration, service settings, command lines for the system tools, text
//! sanitising, firmware index parsing and update decisions.

pub mod text;
pub mod logger;
pub mod statics;
pub mod sysinfo;
pub mod fwupdate;
