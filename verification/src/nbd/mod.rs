//! NBD block device publication: protocol, fd I/O rules, sysfs parsing and the
//! device pool.
pub mod io;
pub mod manager;
pub mod protocol;
pub mod request_loop;
pub mod sysfs;
pub mod volume_io;

pub use self::manager::NbdDeviceManager;
pub use self::protocol::{build_reply, NbdCommand, NbdRequest};
pub use self::sysfs::NbdPartitionScanStatus;
