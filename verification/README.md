# boardswarm

Rules, state machines and data structures of a board farm, verified with Verus.

A server shares what is attached to development boards: consoles, actuators, volumes, keyboards,
mice and cameras. Clients find items by their properties, talk to them over streams of messages
and see only what their roles let them see.

## Layout

- `src/` is the library. Every function states what it returns or changes, and Verus proves it.
  Properties that span several functions are public proof functions whose names start with `law_`.
- `tests/` runs the library on concrete values, together with the crates it calls.
- `app/` is a command line tool around the library: files, terminals, configuration and logins.

## Modules

- Items: `registry`, `ids`, `directory`, `authentication`, `providers`, `udev`, `serial`, `gpio`
- Devices: `device`, `remote`, `hifive_p550_mcu`, `ti_xds`
- Volumes: `volumes`, `volume_io`, `batch_writer`, `fastboot`, `sparse`, `images`
- Input and video: `keyboard`, `hid`, `kvm`, `media`
- Streams of messages: `sessions`, `server`, `status`
- Clients: `client`, `oidc`, `auth_cli`, `cli`, `ui`, `ui_term`, `web`
- Helpers: `text`, `path`, `urls`, `bits`

Calls into other crates stand behind small functions whose contracts are not proved. Each says in
its doc comment which function it calls and what it claims of it.
