# PortWeave

A desktop manager for SSH port forwards (`ssh -L` / `ssh -R`) that runs the
system OpenSSH client, imports hosts from `~/.ssh/config`, and lives in the
system tray.

The decisions of the program are a library verified with Verus; the window,
the processes, the files and the platform services are a thin program around
it.

## Layout

- `src/` — the verified library:
  - `config.rs`: tunnels, their validation rules, the settings;
  - `ssh.rs`: the `ssh` argument list of a tunnel;
  - `ssh_config.rs`: reading OpenSSH configuration lines, the walk over a
    configuration file and the files it includes that collects the `Host`
    aliases (as a state machine whose file system work the caller does),
    reading `ssh -G` output, assembling an import;
  - `form.rs`: the tunnel editor and what saving it gives;
  - `app_state.rs`: the application state, what every message and event does
    to it, and the outside work it asks for;
  - `reconnect.rs`: retry delays and the retry bookkeeping of tunnels;
  - `startup.rs`, `tray.rs`, `notification.rs`: the platform-independent
    parts of launching at login, the tray menu and notifications;
  - `ids.rs`, `text.rs`: tunnel ids and the text helpers the rest builds on.
- `tests/` — tests of the library on concrete values.
- `app/` — the program: the Iced window, the `ssh` processes, the
  configuration file, the file system work of the import and its `ssh -G` calls, the
  Windows registry, tray and notification area.
