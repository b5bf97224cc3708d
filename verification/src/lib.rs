pub mod aggregate;
pub mod ascii;
pub mod cmdline;
pub mod record;
pub mod report;
pub mod size_format;
