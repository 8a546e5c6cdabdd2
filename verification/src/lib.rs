pub mod imgproc;
pub mod sort;
pub mod text;
pub mod file;
pub mod ui;
pub mod process;
