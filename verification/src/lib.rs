//! Compiler core of the marisjs component framework: the component model,
//! the JavaScript code generators, the build-time helpers (routes, dotenv,
//! sitemap, page shells) and the validation-result shaping of the tool
//! server.

pub mod text;
pub mod json;
pub mod ast;
pub mod codegen;
pub mod tree;
pub mod server;
pub mod api;
pub mod client;
pub mod paths;
pub mod generate;
pub mod routes;
pub mod http;
pub mod dotenv;
pub mod site;
pub mod pipeline;
pub mod css;
pub mod tool;
pub mod dev;
pub mod script;
pub mod printer;
pub mod inspect;
pub mod jsx;
pub mod component;
pub mod manifest;
pub mod splice;
pub mod init;
pub mod assemble;
pub mod reads;
