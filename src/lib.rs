pub mod clients;
pub mod harvest;
pub mod project_laws;
pub mod projects;
pub mod rentman;
pub mod status;
pub mod xref;
