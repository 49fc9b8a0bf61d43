pub mod action;
pub mod components;
pub mod distance;
pub mod galaxy;
pub mod generate;
pub mod http_response;
pub mod ids;
pub mod message;
pub mod pathfind;
pub mod placer;
pub mod planet;
pub mod port;
pub mod reach;
pub mod repair;
mod rng;
pub mod sector;
pub mod session;
pub mod tally;
pub mod text;
pub mod universe;
pub mod user;
