# rks

The control plane of a small container cluster, in Verus. It keeps users and
workers connected, stores pods, replica sets, deployments, jobs, services and
endpoints, and brings the cluster in line with what is stored.

`src/` is the library: what the control plane decides. Its functions carry
contracts, which Verus proves. What is asked of a caller is written in
`requires`; what is believed of other crates without proof stands in functions
marked `external_body` and in `assume_specification`, each with a comment that
says what is believed.

- `protocol/`: objects, messages and configuration
- `api/`: keys and documents of the store
- `commands/`: creation and deletion of pods
- `controllers/`: replica sets, deployments, jobs, endpoints, packet filter
  rules, and the collection of objects whose owners are gone
- `csi/`: volumes
- `dns/`: names of services and pods
- `network/`: addresses, subnets, leases and the addresses of services
- `node/`: the connections of users and workers
- `login.rs`, `vault.rs`, `cert.rs`, `internal.rs`: credentials and certificates
- `cli.rs`, `scheduler.rs`: the command line, and the assignment of pods
- `text.rs`, `json.rs`, `seqs.rs`, `order.rs`, `random.rs`, `clock.rs`: common ground

Where work in the store or over a connection alternates with decisions, the
library has a type for how far the work has come, and a function from that and
an event to what is done next. `app/` runs these: it reads and writes the
store, serves connections and waits. Public functions whose names start with
`law_` state what holds of several functions together.

`tests/` runs the library on given values.
