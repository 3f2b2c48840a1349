//! Built-in treatment implementations.
pub mod text;
pub mod url_misc;
pub mod url_qp;
pub mod title;
pub mod folder_name;
pub mod cross;
pub mod duplicates;
