pub mod line;
pub mod page;
pub mod value;
