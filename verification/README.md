# ttspotify

The command-line tooling around the TTSpotify TeamTalk bot: reading and
repairing bot configs, the config editor's rules, the systemd user unit it
writes and reads back, the install helpers' path logic, `doctor`'s advice,
the man page text, and pulling the binary out of an update archive.

- `src/` is the library, written in Verus. Every function states what it
  returns in its contract, and the properties that span functions (a config
  survives the editor unchanged, a refreshed unit needs no second refresh,
  escaping is undone by unescaping, listings come out in name order, ...) are
  proof functions named `lemma_*`.
- `tests/` exercises the library on concrete values.
- `app/` is the `ttspotify` program: argument handling and everything that
  touches the disk, systemd or the terminal, handing plain values to the
  library and acting on what it returns.

Floating-point settings are carried in the library as their IEEE-754 bit
patterns; printing and parsing them happens in `app/`.
