# zyris-docker

A [Zyris](https://github.com/attacca-cc/zyris) node that runs inside a container and connects that
container, and the Docker and Kubernetes infrastructure around it, to Attacca. It announces three
capabilities (`monitor`, `file_io`, `terminal`) and is the trigger half of a self-healing loop: it
watches processes, containers and the cluster, and opens a session against an agent when something
that must be running is not.

## Layout

`src/` is a library in Verus. Everything the node decides is decided there, and every decision is
proved against its contract:

| Module | What it decides |
|---|---|
| `config`, `env` | what the `ZYRISD_*` variables mean |
| `roots`, `path`, `gate` | which paths an agent may touch, links followed |
| `file_io`, `terminal` | what a request for a file or a command comes to |
| `command`, `json`, `docker`, `k8s`, `system` | what `docker`, `kubectl` and `/proc` say |
| `monitor` | how the `monitor` tools answer |
| `heal` | what is an incident, what is reported when, and what an agent is told |
| `runtime::credentials` | what counts as a credential, and what of it may be shown |
| `runtime::store`, `runtime::stored` | where a credential is kept, how it is written, when it may be used |
| `runtime::runner` | configuration, backoff, refusals and exit codes |
| `enroll` | where the credential comes from, and the steps of an enrollment |
| `text`, `numbers`, `time`, `wire` | what the others share |

`app/` is the program around it: it reads files and variables, runs programs, dials, and prints.
`tests/` exercises the library on concrete values.

What the library takes on trust is marked `#[verifier::external_body]` or `assume_specification`:
reading and writing JSON with `serde_json`, two facts about this machine and deployment from
`zyris`, and a few functions of the standard library. Each says in its doc comment what is claimed
of it.
