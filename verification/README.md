# weecord

The decision logic of a WeeChat plugin for Discord, verified with Verus.

- `src/` is the library: parsing of `/discord`, `/nick` and `/query`,
  the plugin's messages and return codes, and the number and string
  routines beneath them (`str::parse::<u64>`, `str::trim`,
  `str::trim_matches`, byte slicing), each with a contract. `src/laws.rs`
  holds the properties that span functions.
- `app/` is the plugin around it: WeeChat's services behind the `Host`
  trait, Discord through serenity, and the handlers that perform the
  actions the library returns.
- `tests/` runs the library on concrete inputs.
