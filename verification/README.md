# bestow

A symlink farm manager in the style of GNU Stow: packages (directories in a
stow directory) are installed into a target directory as symlinks, and
uninstalled again.

- `src/` is the verified library. It never touches the disk: it plans from
  snapshots (`scan`), decides which symlinks to create, unfold or remove
  (`stow`), turns actions into filesystem steps (`execute`), finds the
  directories left empty by the links an unstow removed (`cleanup`), and
  drives a whole run as a state machine (`runner`) that tells the caller
  what to scan, execute or print.
  Laws of planning are in `stow_laws` and `unfold_laws`.
  Paths are lists of components (`path`); ignore/defer/override patterns are
  regular expressions (`ignore`, through the `regex` crate).
- `app/` is the `bestow` command: argument parsing, reading the filesystem
  into snapshots, performing the steps, printing.
- `tests/` runs the library on hand-made snapshots.
