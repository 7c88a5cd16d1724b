//! Connection provider definitions, credential schemas and the deployment
//! bookkeeping of a multi-agent chat service, with their rules proved.
pub mod error;
pub mod json;
pub mod text;
pub mod model;
pub mod address;
pub mod schema;
pub mod catalog;
pub mod ids;
pub mod crypto;
pub mod deployment;
pub mod setup;
pub mod pointer;
pub mod oauth;
pub mod assets;
pub mod wire_model;
