pub mod broadcast;
pub mod broadcaster;
pub mod capture;
pub mod generator;
pub mod nodes;
pub mod sink;
pub mod source;
