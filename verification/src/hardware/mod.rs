//! GPU drivers, the initramfs module list, and hardware detection.
pub mod detect;
pub mod modules;
