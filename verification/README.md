# Smol

The decisions behind Smol, a local media compressor for Windows, as a Rust library
verified with Verus.

| Module | What it decides |
|---|---|
| `fs_bridge` | what is known of a path, which files of a folder are supported, where a compressed file ends up |
| `replace` | replacing an original by its compressed version, one file operation at a time |
| `adb` | finding `adb`, listing a device folder |
| `pull` | pulling device files into the workspace, each into a folder of its own |
| `deliver` | bringing a compressed file to a PC folder or a device, and keeping it where that fails |
| `workspace` | the app's folders below the user's documents |
| `import` | delivery plans, workspace folders, item lists as base64 |
| `error` | the error type and the hint for a full disk |
| `spike` | reports of a trial of the shell's file dialog |
| `winpath`, `winpath_laws` | Windows paths: prefixes, components, names, extensions, joining |
| `text` | words, lines, numbers and letters of a text |

Paths are read as Windows reads them, whatever system the library runs on.

The library performs no file operation and starts no program. `replace` and
`deliver` are state machines: `action()` says what is to be done next, and
`advance(event)` is told how it went. `app/` runs them: it holds the commands, the
types as the frontend gets them, and everything that touches files, `adb` or the
shell.

Properties that span several functions are public proof functions beside them,
such as `replace::original_is_safe`, `deliver::failure_comes_after_rescue`,
`pull::pulled_files_never_collide`, `adb::shell_reads_quoted_text` and
`fs_bridge::replaced_file_keeps_folder_and_stem`.
