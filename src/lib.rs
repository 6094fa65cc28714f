pub mod clock;
pub mod filter;
pub mod form;
pub mod history;
pub mod message;
pub mod model;
pub mod ordered_map;
pub mod parse;
pub mod task;
pub mod text;
pub mod tree;
pub mod update;
pub mod visible;
