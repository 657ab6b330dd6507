//! A reader for simplified Java class declarations and the pieces needed to
//! draw them as UML class boxes.

pub mod chars;
pub mod decimal;
pub mod grammar;
pub mod image;
pub mod java;
pub mod layout;
pub mod parser;
pub mod reporting;
pub mod scan;
pub mod text;
pub mod theorems;
pub mod token;
pub mod written;
