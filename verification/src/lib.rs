//! Verified core of the blob services: request parsers, range arithmetic,
//! path sanitising, transform validation and hashing.

pub mod text;
pub mod rfc;
pub mod http_range;
pub mod http_content_range;
pub mod transform_proto;
pub mod transformers;
pub mod paths;
pub mod proto;
pub mod hashing;
pub mod super_hasher;
pub mod gateway;
pub mod extractors;
pub mod store;
pub mod manager;
pub mod s3;
pub mod sigv4;
pub mod cloudfront;
