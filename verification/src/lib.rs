use vstd::prelude::*;

pub mod route;
pub mod text;
pub mod json;
pub mod codec;
pub mod converter;
pub mod home_search;
pub mod crypto_meta;
pub mod agent;
pub mod tools;
pub mod turn;
pub mod display;
pub mod session;
pub mod forms;
pub mod screens;
