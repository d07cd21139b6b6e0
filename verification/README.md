# omni-runner

An edge test runner: it polls a server for task manifests, runs each task's
pipeline of shell, Python, binary and HTTP steps on the device, and reports
step results and heartbeats back.

## Layout

- `src/` is the verified library (Verus). It holds the decisions of the
  runner, each with a contract:
  - `pipeline/topo.rs`: the placement order of a pipeline (dependencies
    first, otherwise pipeline order) and its laws;
  - `pipeline/engine.rs`: sequential execution as a state machine that says,
    step by step, whether to run, skip or refuse a step (a step whose
    command or working directory its own security policy forbids), when to
    run a failed step again under its retry policy, and when to stop;
  - `pipeline/parallel.rs`, `pipeline/dag.rs`: batches of ready steps, cycle
    detection, and ordering of results by step order;
  - `pipeline/failure_policy.rs`: failure policies and the transitive
    dependents of a failed step;
  - `pipeline/resource_lock.rs`: exclusive device locks;
  - `security/`: command and working-directory validation;
  - `executor/`: command-line splitting and the step results built from
    exit codes and output;
  - `system.rs`, `tasks.rs`, `heartbeat.rs`, `api/`: parsing of
    `/proc/meminfo`, `/proc/stat` and `df -Pk /` output, task summaries,
    heartbeat contents, request routes and reply handling;
  - `text.rs`: the string and character helpers the rest is built on.
- `app/` is the program around it: configuration loading, logging, process
  and HTTP I/O, the async loops, and the JSON forms of the models.
- `tests/` exercises the library on concrete values.
