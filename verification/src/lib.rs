pub mod text;
pub mod models;
pub mod format;
pub mod selection;
pub mod grouping;
pub mod panels;
pub mod session;
pub mod measure;
pub mod docker;
pub mod orphan;
pub mod apps;
pub mod cleanup;
pub mod scan;
pub mod laws;
