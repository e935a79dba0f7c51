pub mod once;
