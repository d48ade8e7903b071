# AppImage Manager

A KDE-native manager for AppImages. A click on an `.AppImage` in Dolphin asks
for confirmation; if you accept, the AppImage is copied to `~/.local/bin`, gets a
menu entry with its icons, and is started. `list` and `uninstall` do the rest.

The logic is a library that is verified with [Verus](https://github.com/verus-lang/verus):
every function states in its contract what it returns, and `pub proof fn law_*`
state what holds of several of them together.

## Layout

| Where | What |
|---|---|
| `src/appimage.rs` | recognition of type-2 AppImages, search for the squashfs payload |
| `src/metadata.rs` | what is read out of the payload with `unsquashfs`, and the install name |
| `src/desktop.rs` | parser and writer of desktop entries |
| `src/registry.rs` | the record of what is installed |
| `src/installer.rs` | installation, menu entries, duplicates, imports of old installs, removal |
| `src/mime.rs` | the MIME handler and the associations in `mimeapps.list` |
| `src/commands.rs`, `src/cli.rs` | the course of each command |
| `src/kdialog.rs`, `src/messages.rs` | dialogs, messages |
| `src/i18n.rs`, `src/locale.rs`, `src/locale/` | the choice of a locale, the active locale |
| `src/text.rs`, `src/paths.rs`, `src/failure.rs` | text, paths and failures as the rest speaks of them |
| `app/` | the program: arguments, files, processes, translations |
| `tests/` | tests of the library |

## What is taken on trust

Three functions from outside are called on the strength of a contract that is
not proved: `String::push` and `String::from_utf8_lossy` of the standard library,
and `rust_i18n::set_locale`.

Paths are text. A file name that is not is handed to the library as the empty
path.
