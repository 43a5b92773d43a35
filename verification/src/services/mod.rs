pub mod database;
