# acs

`acs <host>` attaches this terminal to a shell session on another machine, over ssh,
and keeps it attached: when the link is lost, the client dials again and goes on
where it stopped. On the host a *master* owns the session's pty and keeps its latest
output; a *proxy*, started by sshd, relays between the two.

The library (`src/`) holds what the three decide, proved in Verus. The program
(`app/`) holds what needs the machine: terminals, sockets, processes and files.

## Layout

| Module | What it holds |
| --- | --- |
| `proto`, `wire` | the frames between client, proxy and master, and the marker line before them |
| `resume`, `reconnect` | the output ring, the input that is still owed, when silence is a lost link, and the waits before a dial |
| `client` | a client's state, one served link, the dialing around it, and the notes it prints |
| `master` | a session: its connections, its program, and what each event does to them |
| `proxy`, `prune`, `session` | the host's side of a connection, old versions, and session names |
| `keys`, `modes`, `safe` | the escape keys, the terminal modes a program left on, and text made safe to print |
| `menu`, `pick`, `list` | choosing a session, on one host or over all of them |
| `cli`, `alias`, `ssh`, `mux` | the command line, host aliases, and the ssh calls with their shared connection |
| `config`, `config_cmd`, `yaml` | the configuration, and the command that shows and edits it |
| `netmatch`, `netwatch` | networks, and noticing that this machine moved to another one |
| `install`, `payload`, `release`, `sha256` | putting acs on a host, from the binaries this one carries |
| `text`, `path` | strings, numbers, and paths by their components |

A type's meaning is its view; what a function does is a spec function over views,
named in its `ensures`. Properties that span functions are the public proof functions
named `law_…`, in the `laws` file of their module or beside what they speak of.
`client::laws` holds those of a client and a master together.
