pub mod changelog;
pub mod commit;
pub mod config;
pub mod forge;
pub mod git;
pub mod github;
pub mod matcher;
pub mod order;
pub mod package;
pub mod plan;
pub mod pm;
pub mod preview;
pub mod resolver;
pub mod run;
pub mod step;
pub mod text;
pub mod version;
