//! The configuration that selects what is built.

pub mod types;

pub use types::{
    default_includes, BuildEntry, BuildsConfig, DeploymentConfig, GarnixConfig,
    IncrementalizeBuilds, ServerConfig,
};
