//! Search over cloud resources: draining paginated listings, matching
//! comma-separated queries against resource fields and tags, and projecting
//! tags into columns.
pub mod autoscaling;
pub mod awsutils;
pub mod instance;
pub mod pager;
pub mod targetgroup;
pub mod text;
pub mod utils;
