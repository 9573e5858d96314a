pub mod entry;
