pub mod address;
pub mod archive;
pub mod cfg;
pub mod date;
pub mod docs;
pub mod error;
pub mod letter;
pub mod mail;
pub mod repo;
pub mod subject;
pub mod text;
