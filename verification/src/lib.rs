pub mod app;
pub mod db;
pub mod keys;
pub mod numbers;
pub mod order;
pub mod panes;
pub mod privilege;
pub mod resolve;
pub mod text;
pub mod ui;
