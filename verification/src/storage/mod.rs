pub mod buffer;
pub mod disk;
