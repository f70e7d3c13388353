//! View models behind the application's pages: what each page lists and in
//! which order, and the text it shows. Widgets live in the application.
pub mod connection;
pub mod home;
pub mod manage;
pub mod package_editor;
pub mod pkgbuild_editor;
pub mod publish;
pub mod register;
pub mod shell;
pub mod ssh_setup;
pub mod validate;
pub mod version;
