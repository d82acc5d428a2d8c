# compostbin

Runs a coding assistant in a container. The host paths a project declares are
mounted under `/workspace`; the assistant sees those and nothing else, and asks
the host to run what the project allows, by name.

The library under `src/` is verified with [Verus](https://github.com/verus-lang/verus):
every function states what it returns, and what the library promises of several
functions together stands beside them as proofs (`law_…`).

- `manifest`: what a project declares.
- `paths`, `workspace`: where declared paths lead, where they appear in the
  guest, and which of them should not be mounted.
- `session`: a project's container: its mounts, environment, image, token,
  settings, briefing and record, and the steps of running and cleaning it.
- `host`: the channel back to the host: requests, the allowlist, the spool, the
  agent, and the relay of ports.
- `engine`: what runs containers and builds images, and the keys that builds are
  cached under.
- `apple_container`: the same through the `container` tool.
- `doctor`, `report`, `cli`: what is checked, and what is said.
- `assistant`: what is called after the assistant.
- `error`, `text`: what goes wrong, and text.

`app/` is the program: arguments, files, processes, threads and sockets around
the library. Guest scripts and the Dockerfile of the base image are read from
`/usr/local/share/compostbin`.
