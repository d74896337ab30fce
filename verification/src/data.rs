pub mod _type;
pub mod object;
