# agent-witness

The audit trail for coding agents: what a session did, beside what it said it did.

The library is the recorder's logic. It turns hook payloads into events, decides
where records lie and which session ids are safe, reads transcripts and token usage,
and makes the timeline, the report, the listing, the digest, the inventory and the
screens out of what was recorded. Every function states what it returns, and the laws
that hold across functions are proved beside them.

| Part | Modules |
| --- | --- |
| Text, numbers, order | `text`, `split`, `num`, `order`, `doc`, `table`, `named` |
| Time | `calendar`, `timefmt`, `rfc3339`, `clock`, `relative`, `window` |
| JSON | `json`, `members`, `fields`, `outside` |
| Recording | `event`, `hooks`, `receiver`, `store`, `emit`, `transcript`, `usage` |
| Commands | `shell`, `flags`, `testcmd` |
| Sessions | `selector`, `liveness`, `project`, `timeline`, `claim` |
| Views | `report`, `ls`, `ledger`, `digest`, `inventory`, `keys`, `pick`, `top`, `tui` |
| Setting up | `host`, `paths`, `settings`, `init`, `statusline`, `skill`, `messages` |

`outside` is the only module, beside the system clock in `clock`, that calls other
crates or unspecified parts of the standard library.

`app/` is the command line program around the library: arguments, files, the socket,
the terminal. It takes the names of the host program from the environment:
`AGENT_WITNESS_HOST_NAME`, `AGENT_WITNESS_HOST_DIR` (the directory of its settings)
and `AGENT_WITNESS_HOST_SITE`.

Times in records are milliseconds since 1970, UTC. A confidence is held as the bits of
its floating point number.
