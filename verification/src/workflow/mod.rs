pub mod aur_account;
pub mod package;
pub mod pkgbase;
pub mod pkgbuild_edit;
pub mod registry;
pub mod ssh_setup;
pub mod sync;
pub mod validate;
pub mod pkgbuild_diff;
pub mod admin;
pub mod preflight;
pub mod build;
pub mod aur_ssh;
pub mod aur_git;
pub mod pkgbuild_round_trip;
pub mod pkgbuild_units;
