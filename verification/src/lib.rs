pub mod matrix;
pub mod kernel;
pub mod init;
