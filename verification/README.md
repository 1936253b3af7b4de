# aria_shell

The logic of a Wayland desktop shell (a panel with gadgets, an application
launcher, an exit menu, a lock screen, a notification daemon), written in
Verus. The library's functions carry contracts that the verifier proves,
except the eight trusted wrappers listed below, whose contracts are taken
on trust; several properties that span functions (a countdown that
performs its button, a script run that shows for its own spec, usage
that only reorders equal scores, an icon named with its extension looked
up as its stem, and others) are stated and proved as public proof
functions beside the code they speak of.

Trusted wrappers (`#[verifier::external_body]`), each a single outside
call whose contract is believed, not proved:

- `audio::text_of_bytes`: `String::from_utf8_lossy`;
- `commands::debug_quoted`: `format!("{:?}")` of a `str`;
- `config::read_ini`: `configparser`'s `Ini::read`;
- `locale::to_lowercase`: `str::to_lowercase`;
- `locker::path_exists`: `Path::exists` (its result comes from the disk
  and is not stated);
- `notifications::char_from_u32`: `char::from_u32`;
- `scripts::read_json`: `serde_json::from_str` into a JSON value;
- `text::push_char`: `String::push`.

- `src/`: the verified library, one module per part of the shell
  (`config`, `compositor` and `hyprland`, `launcher` and `desktop`,
  `exiter`, `locker`, `notifications`, `toast` and `dbus`, `audio`,
  `sysmon`, `procfs` and `sensors`, `gadgets`, `panel`, `shell`, ...).
  Drawing, sockets, D-Bus, files and floating-point rates stay with the
  caller; each module's header says what it leaves out.
- `tests/`: the tests, run against the compiled library.
- `app/`: the program: the command-socket client, and the daemon's I/O
  (configuration files, the command socket, Hyprland's sockets) around
  the library.

Verify with Verus on `src/lib.rs`; the outside crates used are
`configparser` (the INI reader) and `serde_json` (JSON for `Custom`
scripts and the compositor's replies).
