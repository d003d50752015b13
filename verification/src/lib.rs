//! Turns the operations of an OpenAPI document into tool descriptions and
//! plans the HTTP requests that carry out a call of such a tool.

pub mod text;
pub mod json;
pub mod config;
pub mod state;
pub mod openapi;
pub mod tools;
pub mod handler;
pub mod laws;
