# chariot

The verified core of the Chariot CRI shim and its container tools.

The shim sits between a kubelet and several CRI runtimes (a host runtime and
one or more XPU runtimes). Every request is either routed to the runtime that
owns the pod sandbox, container or image it names, or fanned out to all
runtimes with the answers merged. `src/` holds those decisions, each with its
contract and proof:

- `shim/`: the multi-runtime shim. Endpoints are parsed into a transport,
  runtimes are registered by name, the sandbox and container records say
  which runtime serves each id, and image listings are labelled with the
  runtime that reported them.
- `cri/`: the host/XPU shim, which remembers the ids it placed on the XPU,
  and the image values both shims rewrite.
- `cfg.rs`, `runc.rs`: the command-line options and working directories, and
  what running a container directly writes and executes.
- `text.rs`, `common.rs`: decimal rendering and path joining, errors and the
  statuses refused requests are answered with.

`app/` holds what touches the system: option parsing, the JSON files of the
record store, gRPC statuses, and the user-namespace, cgroup and netlink
system calls.
