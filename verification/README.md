# aur_pkgbuilder

A maintainer's workbench for Arch User Repository packages, written in Verus.

- `src/` is the verified library: the package registry and its laws, the
  PKGBUILD quick-field parser and merger, validation reports, checksum
  comparison, SSH setup text handling (agent output, host blocks, host key
  fingerprints), AUR account merging, locale resolution and translation
  lookup, and the view models of the application's pages (Home list order
  and filters, tab titles, report transcripts, toasts).
- `tests/` exercises the library from outside.
- `app/` is the desktop program around it: the GTK window, the Tokio
  runtime, configuration and registry files, YAML bundles, HTTP requests and
  the external tools (`git`, `ssh`, `makepkg`, `pacman`, …). It hands what it
  reads to the library and acts on what the library decides.
