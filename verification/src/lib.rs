pub mod app_state;
pub mod dependency_group;
pub mod grouping;
pub mod handlers;
pub mod html_index;
pub mod index;
pub mod nuget_version;
pub mod nuspec;
pub mod package_index;
pub mod registration_index;
pub mod routes;
pub mod search;
pub mod search_index;
pub mod seqs;
pub mod sort;
pub mod text;
pub mod watch;
pub mod xml;
