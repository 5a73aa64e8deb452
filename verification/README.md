# introbot

The rules of a Discord bot that shows how the members of a guild introduced themselves, verified
with Verus.

- `src/` is the library: which post introduces whom (`state`, `refresh`), who goes by which name
  (`names`), the guilds that are followed and the events that change them (`registry`,
  `discovery`), the commands (`command`), and the text that goes out (`markdown`, `util`, `links`).
  `laws` holds what spans several of them.
- `app/` connects to Discord and runs what the library decides.
- `tests/` runs the library on concrete values.
