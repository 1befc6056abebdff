pub mod encode;
pub mod json;
pub mod translate;
pub mod upstream;
