pub mod apple_gpu;
pub mod disk;
pub mod gpu;
pub mod memory;
pub mod network;
pub mod process;
