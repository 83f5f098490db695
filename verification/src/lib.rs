//! Bit-addressed vectors packed into storage elements, with verified
//! operations and the properties that they are held to.
pub mod layout;
pub mod vec;
pub mod slice;
pub mod compare;
pub mod octal;
pub mod etna;
pub mod json;
pub mod runner;
pub mod report;
pub mod text;
