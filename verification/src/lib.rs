pub mod db;
pub mod models;
pub mod paths;
pub mod queryobjects;
pub mod record;
pub mod responses;
pub mod scanner;
pub mod tags;
pub mod text;
