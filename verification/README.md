# ioutgt

An NVMe over Fabrics target whose logic is verified with Verus.

The library, `src/`, holds what the target decides and computes; every public
function in it has a contract that Verus proves.

| modules | what they hold |
| --- | --- |
| `pool`, `slotq`, `queue` | data-buffer leases, command slots, per-queue state and counters |
| `registry`, `subsystem`, `port`, `config`, `nvmet` | controllers, namespaces, what a port serves, configuration files |
| `admin`, `command`, `nvme`, `sgl`, `wire` | commands and what they are answered, queue entries, data descriptors |
| `rdma` (`engine`, `reap`, `conn`), `cmproto`, `cm`, `wrstats` | the NVMe/RDMA queue as a state machine, and its connection handshake |
| `tcp` (`recv`, `send`, `conn`), `pdu`, `digest` | the NVMe/TCP receive and send paths, headers, CRC32C |
| `file` | files and block devices as backends: geometry, transfers, zeroing, deallocation |
| `control`, `client`, `stat`, `json`, `text` | the control API, its client, and what they print |
| `harness`, `cpus` | routing, idle teardown, thread statistics, CPU placement |

The transports are written as functions from a state and an event to the next
state and the requests to post, so that what is proved holds for every order of
events. Laws that relate several functions are public proof functions next to
them.

`app/` is the program around the library: the command line, system calls,
sockets and RDMA verbs, and the threads. It needs the RDMA user-space libraries.

JSON text is parsed and quoted by `serde_json`; the few functions in
`src/json.rs` that call it are the only ones whose contracts are not proved.

`tests/` runs the library on concrete values.
