//! Generic model for a package the app can build and publish.
use vstd::prelude::*;

use crate::text::{append_chars, chars_of, string_of};

verus! {

/// Broad category used only to tailor UI copy and default hints; it does not
/// change the build flow.
#[derive(Debug, Clone, Copy, PartialEq, Eq, Structural, Default)]
pub enum PackageKind {
    /// Package ships prebuilt binaries (release tarball + per-arch files).
    #[default]
    Bin,
    /// Package builds from a VCS checkout; `pkgver` is computed at build time.
    Git,
    /// Anything else — source tarball, from-scratch, etc.
    Other,
}

/// Label shown for a package kind.
pub open spec fn kind_label(k: PackageKind) -> Seq<char> {
    match k {
        PackageKind::Bin => "binary"@,
        PackageKind::Git => "git"@,
        PackageKind::Other => "source"@,
    }
}

impl PackageKind {
    pub fn label(self) -> (r: &'static str)
        ensures
            r@ == kind_label(self),
    {
        match self {
            PackageKind::Bin => "binary",
            PackageKind::Git => "git",
            PackageKind::Other => "source",
        }
    }

    /// Every kind, in display order.
    pub fn all() -> (r: [PackageKind; 3])
        ensures
            r@ == seq![PackageKind::Bin, PackageKind::Git, PackageKind::Other],
    {
        let r = [PackageKind::Bin, PackageKind::Git, PackageKind::Other];
        assert(r@ =~= seq![PackageKind::Bin, PackageKind::Git, PackageKind::Other]);
        r
    }
}

/// Fully describes one package the app can drive end-to-end.
#[derive(Debug)]
pub struct PackageDef {
    /// The AUR package name (e.g. `my-pkg-bin`), also the default directory name.
    pub id: String,
    /// Short display name.
    pub title: String,
    /// One-line description shown on the home card.
    pub subtitle: String,
    /// Kind — only affects UI hints.
    pub kind: PackageKind,
    /// Raw URL to the upstream PKGBUILD that maintainers update.
    pub pkgbuild_url: String,
    /// Optional freedesktop icon name override.
    pub icon_name: Option<String>,
    /// Absolute folder for the PKGBUILD and builds (`None`: `<work_dir>/<id>`).
    pub destination_dir: Option<String>,
    /// Legacy folder relative to the working directory (ignored when
    /// `destination_dir` is set).
    pub sync_subdir: Option<String>,
    /// Unix time when the PKGBUILD was last downloaded or reloaded.
    pub pkgbuild_refreshed_at_unix: Option<i64>,
    /// Shown in the Favorites section of the home list.
    pub favorite: bool,
}

/// `ssh://aur@aur.archlinux.org/<id>.git`.
pub open spec fn aur_ssh_url_of(id: Seq<char>) -> Seq<char> {
    "ssh://aur@aur.archlinux.org/"@ + id + ".git"@
}

/// Default freedesktop icon of a kind.
pub open spec fn kind_icon(k: PackageKind) -> Seq<char> {
    match k {
        PackageKind::Bin => "package-x-generic-symbolic"@,
        PackageKind::Git => "folder-remote-symbolic"@,
        PackageKind::Other => "application-x-addon-symbolic"@,
    }
}

impl PackageDef {
    /// SSH remote for `aur.archlinux.org`.
    pub fn aur_ssh_url(&self) -> (r: String)
        ensures
            r@ == aur_ssh_url_of(self.id@),
    {
        let mut v = chars_of("ssh://aur@aur.archlinux.org/");
        append_chars(&mut v, &chars_of(self.id.as_str()));
        append_chars(&mut v, &chars_of(".git"));
        string_of(&v)
    }

    /// The icon override, or the kind's default icon.
    pub fn icon(&self) -> (r: &str)
        ensures
            r@ == (match self.icon_name {
                Some(n) => n@,
                None => kind_icon(self.kind),
            }),
    {
        match &self.icon_name {
            Some(n) => n.as_str(),
            None => match self.kind {
                PackageKind::Bin => "package-x-generic-symbolic",
                PackageKind::Git => "folder-remote-symbolic",
                PackageKind::Other => "application-x-addon-symbolic",
            },
        }
    }
}

fn clone_opt_string(o: &Option<String>) -> (r: Option<String>)
    ensures
        r == *o,
{
    match o {
        Some(s) => Some(s.clone()),
        None => None,
    }
}

impl Clone for PackageDef {
    /// A field-for-field copy.
    fn clone(&self) -> (r: Self)
        ensures
            r == *self,
    {
        PackageDef {
            id: self.id.clone(),
            title: self.title.clone(),
            subtitle: self.subtitle.clone(),
            kind: self.kind,
            pkgbuild_url: self.pkgbuild_url.clone(),
            icon_name: clone_opt_string(&self.icon_name),
            destination_dir: clone_opt_string(&self.destination_dir),
            sync_subdir: clone_opt_string(&self.sync_subdir),
            pkgbuild_refreshed_at_unix: self.pkgbuild_refreshed_at_unix,
            favorite: self.favorite,
        }
    }
}

} // verus!
