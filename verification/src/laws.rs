//! What holds of the library as a whole.
pub mod calls;
pub mod damage;
pub mod layout;
pub mod paths;
pub mod rows;
pub mod service;
pub mod tables;
pub mod texts;
pub mod values;
