# sky-daemon

The daemon that runs on each node of a game-server panel. It keeps one outbound
WebSocket connection to the panel, drives the Docker Engine over its unix
socket, manages the files and backups of each server's volume, and can provide
databases on the node's own database server.

`src/` is the decision core, written and proved in Verus: it does no I/O.

| Module | What it decides |
|---|---|
| `sign`, `envelope`, `nonce_cache`, `session`, `outbox` | what a message is signed over, which messages are genuine and fresh, how a connection reacts to each event, and what waits to be sent |
| `dispatcher`, `steps`, `outcomes`, `acks`, `heartbeat` | what each command calls for, what follows from how that went, and what the panel is told |
| `paths`, `backups`, `content` | which paths stay inside a volume, how archives are named and listed, how file content travels |
| `runtime::docker`, `create`, `pull`, `image`, `containers` | the engine's requests, the meaning of its replies, and which containers are the daemon's own |
| `runtime::http`, `demux` | HTTP framing and the multiplexed stream of an attached console |
| `runtime::stats`, `firewall` | resource figures, and opening published ports |
| `client`, `config`, `db`, `tail` | reconnecting, settings, database statements, logs |
| `text`, `search`, `table` | what all of them are built from |

Functions whose names begin with `law_` state what holds of the library as a
whole.

`app/` is the daemon around it: sockets, files, processes, JSON and the event
loop. `tests/` holds the tests of the core.

## Settings

| Variable | Default | Meaning |
|---|---|---|
| `SKY_NODE_TOKEN` | (required) | issued when a node is created in the panel |
| `SKY_PANEL_WS_URL` | `ws://127.0.0.1:8080/agent/ws` | the panel's endpoint |
| `SKY_DOCKER_SOCKET` | `/var/run/docker.sock` | the engine's socket |
| `SKY_HEARTBEAT_INTERVAL` | `5` | seconds between heartbeats |
| `SKY_VOLUMES_ROOT` | `/srv/sky-panel/volumes` | where each server has its volume |
| `SKY_BACKUPS_ROOT` | `/srv/sky-panel/backups` | where each server has its backups |
| `SKY_CONTAINER_DNS` | `1.1.1.1,8.8.8.8` | resolvers of created containers; empty for the engine's default |
| `SKY_DB_ADMIN_USER`, `_PASSWORD`, `_HOST`, `_PORT` | no user, and so no databases | the database server's admin |
| `SKY_DB_PUBLIC_HOST`, `SKY_DB_PUBLIC_PORT` | the admin's | what users are told to connect to |
