pub mod kind;
pub mod vector;
pub mod word;
