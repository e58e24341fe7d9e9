//! Project bookkeeping for the veal vector-dataset lab: the recent-projects
//! list, project archives and their `config.json`, and the shape rules for
//! vector datasets stored as JSON.

pub mod archive;
pub mod dataset;
pub mod paths;
pub mod project;
pub mod recent;
