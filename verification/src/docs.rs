//! The built-in documentation.

use crate::markdown::{markdown_events, render_markdown_for_terminal, shown};
use vstd::prelude::*;

verus! {

/// A part of the documentation.
#[derive(Debug, Clone, Copy, PartialEq, Eq, Structural)]
pub enum DocsTopic {
    Config,
    Behavior,
    Development,
    Security,
    Artifacts,
}

/// The Markdown text of a part of the documentation.
pub open spec fn docs_of(topic: DocsTopic) -> Seq<char> {
    match topic {
        DocsTopic::Config => CONFIGURATION@,
        DocsTopic::Behavior => BEHAVIOR@,
        DocsTopic::Development => DEVELOPMENT@,
        DocsTopic::Security => SECURITY@,
        DocsTopic::Artifacts => ARTIFACTS@,
    }
}

/// The Markdown text of a part of the documentation.
pub fn docs_text(topic: DocsTopic) -> (text: &'static str)
    ensures
        text@ == docs_of(topic),
{
    match topic {
        DocsTopic::Config => CONFIGURATION,
        DocsTopic::Behavior => BEHAVIOR,
        DocsTopic::Development => DEVELOPMENT,
        DocsTopic::Security => SECURITY,
        DocsTopic::Artifacts => ARTIFACTS,
    }
}

/// A part of the documentation as it is shown on a terminal.
pub fn render_docs_text(topic: DocsTopic) -> (text: String)
    ensures
        text@ == shown(markdown_events(docs_of(topic))),
{
    render_markdown_for_terminal(docs_text(topic))
}

/// The list of the parts of the documentation as it is shown on a terminal.
pub fn render_docs_index() -> (text: String)
    ensures
        text@ == shown(markdown_events(INDEX@)),
{
    render_markdown_for_terminal(INDEX)
}

/// What the help of the program ends with.
pub const HELP_FOOTER: &'static str = "Serving generated files that are replaced during rebuilds?
Read `devloop docs artifacts`.";

/// The list of the parts of the documentation.
pub const INDEX: &'static str = "# Devloop documentation

- `devloop docs config`: every key of the configuration file.
- `devloop docs behavior`: what happens at runtime.
- `devloop docs artifacts`: for a build that replaces files that a managed process is serving.
- `devloop docs development`: how to work on devloop itself.
- `devloop docs security`: what external events may do.
";

/// The configuration reference.
pub const CONFIGURATION: &'static str = "# Configuration Reference

`devloop` is configured with a TOML file, typically `devloop.toml` in
the client repository root.

## Top-level keys

```toml
root = \".\"
debounce_ms = 300
state_file = \"./.devloop/state.json\"
startup_workflows = [\"startup\"]
```

- `root`: repository root used for watches, relative commands, and path
  resolution.
- `debounce_ms`: file-watch debounce window in milliseconds.
- `state_file`: path to the session state JSON file. If omitted,
  `devloop` uses `<root>/.devloop/state.json`.
- `startup_workflows`: workflows to run after autostart processes have
  been started.

## Watch groups

Watch groups map file patterns to workflows.

```toml
[watch.rust]
paths = [\"src/**/*.rs\", \"Cargo.toml\"]
workflow = \"rust\"
```

- Table name: the watch-group name.
- `paths`: glob patterns evaluated relative to `root`.
- `workflow`: workflow to run when a matching file changes. If omitted,
  the watch-group name is used as the workflow name.

## Processes

Processes are long-running commands supervised by `devloop`.

```toml
[process.server]
command = [\"cargo\", \"run\"]
cwd = \".\"
autostart = false
restart = \"always\"
env = { PORT = \"8080\" }
output = { inherit = true, body_style = \"plain\" }
```

### Process keys

- `command`: command and arguments as a string array. Required.
- `cwd`: working directory for the process. Relative paths are resolved
  from `root`.
- `autostart`: whether to start the process before startup workflows.
- `restart`: one of `never`, `on_failure`, or `always`.
- `env`: extra environment variables for the process.
- `readiness`: optional readiness probe.
- `liveness`: optional liveness probe.
- `output`: inherited-output behavior and output-derived state rules.

### Output config

```toml
output = {
  inherit = true,
  body_style = \"plain\",
  rules = [{ state_key = \"tunnel_url\", extract = \"url_token\" }]
}
```

- `inherit`: whether process output should be forwarded by `devloop`.
  Default: `true`.
- `body_style`: visual treatment for inherited process body text.
  Default: `plain`.
- `rules`: output-derived state capture rules.

### Output body styles

- `plain`: preserve the process body text as-is, including native ANSI
  colors when present.
- `dim`: dim non-control body text so `devloop` engine logs stand out
  more strongly.

Use `plain` when subprocess color or exact body rendering matters. Use
`dim` when you want inherited process output to recede visually.

### Output rules

Each rule extracts a value from process output and writes it into the
session state.

```toml
output = { rules = [{ state_key = \"tunnel_url\", extract = \"url_token\" }] }
```

Rule keys:

- `state_key`: destination state key. Required.
- `pattern`: regex used when `extract = \"regex\"`.
- `extract`: one of `regex` or `url_token`.
- `capture_group`: capture-group index for regex extraction.

## Probes

### HTTP probe

```toml
[process.server.readiness]
kind = \"http\"
url = \"http://127.0.0.1:8080/\"
interval_ms = 500
timeout_ms = 30000
```

### State-key probe

```toml
[process.tunnel.readiness]
kind = \"state_key\"
key = \"tunnel_url\"
interval_ms = 250
timeout_ms = 30000
```

## Hooks

Hooks are narrow one-shot commands invoked from workflows.

```toml
[hook.current_post_slug]
command = [\"./scripts/current-post-slug.sh\"]
cwd = \".\"
capture = \"text\"
state_key = \"current_post_slug\"
```

### Hook keys

- `command`: command and arguments. Required.
- `cwd`: working directory.
- `env`: extra environment variables.
- `capture`: one of `ignore`, `text`, or `json`.
- `state_key`: required for `capture = \"text\"`.

### Hook capture modes

- `ignore`: discard stdout.
- `text`: write trimmed stdout into `state_key`.
- `json`: parse stdout as a JSON object and merge it into session state.

## Workflows

Workflows are ordered steps.

```toml
[workflow.startup]
steps = [
  { action = \"start_process\", process = \"server\" },
  { action = \"wait_for_process\", process = \"server\" },
  { action = \"run_hook\", hook = \"build_css\" },
]
```

### Workflow actions

- `start_process`
- `stop_process`
- `restart_process`
- `wait_for_process`
- `run_hook`
- `run_workflow`
- `sleep_ms`
- `write_state`
- `log`

### `write_state`

```toml
{ action = \"write_state\", key = \"current_post_url\", value = \"{{tunnel_url}}/posts/{{current_post_slug}}\" }
```

`value` supports `{{state_key}}` interpolation from the current session
state.

### `log`

```toml
{ action = \"log\", message = \"current post url: {{current_post_url}}\", style = \"boxed\" }
```

- `message`: rendered with session-state interpolation.
- `style`: `plain` or `boxed`.

## State and session logs

`state_file` names the JSON file that holds the session state. It defaults
to `.devloop/state.json` below `root`.

Every `devloop run` also writes a log of its own to the `logs/` directory
beside the state file. With the default state file that is
`.devloop/logs/`. `devloop` does not rotate or delete session logs; add
`.devloop/` to the repository's `.gitignore` when using the default
location.

## Session state

The state file is owned by the running `devloop` session.

Typical uses:

- hook outputs such as `current_post_slug`
- output-derived values such as `tunnel_url`
- workflow-composed values such as `current_post_url`

## Minimal example

```toml
root = \".\"
debounce_ms = 300
startup_workflows = [\"startup\"]

[watch.rust]
paths = [\"src/**/*.rs\"]
workflow = \"rust\"

[process.server]
command = [\"cargo\", \"run\"]
autostart = false
restart = \"always\"
output = { inherit = true, body_style = \"plain\" }

[process.server.readiness]
kind = \"http\"
url = \"http://127.0.0.1:8080/\"

[workflow.startup]
steps = [
  { action = \"start_process\", process = \"server\" },
  { action = \"wait_for_process\", process = \"server\" },
]

[workflow.rust]
steps = [
  { action = \"restart_process\", process = \"server\" },
  { action = \"wait_for_process\", process = \"server\" },
]
```
";

/// The behavior reference.
pub const BEHAVIOR: &'static str = "# Behavior Reference

This document describes how `devloop` behaves at runtime beyond the
schema in [`configuration.md`](configuration.md).

This reference is also available in the CLI with:

```bash
devloop docs behavior
```

## Core model

`devloop` is moving toward a pure core with an imperative shell.

- workflow progression is modeled as explicit state plus effect
  requests
- startup orchestration, watch-triggered workflow scheduling, maintain
  ticks, shutdown, and process-supervision decisions are also modeled
  as explicit state plus effect requests
- the runtime interprets those effect requests to perform process
  control, hooks, sleeps, logging, and persistence
- workflow and runtime effect interpreters sit behind replaceable
  adapter boundaries, so orchestration can be tested against mocks
  without requiring live subprocesses or file watchers

The remaining imperative shell is now mostly the concrete adapter layer
that talks to Tokio, `notify`, child processes, HTTP probes, and the
filesystem.

## Startup

When `devloop run` starts, it:

1. loads and validates `devloop.toml`
2. resolves `root`, `state_file`, command paths, and relative working
   directories
3. loads the session state file into memory
4. if external events are configured, starts a localhost event server
5. if any workflow uses `notify_reload`, starts a localhost browser
   reload event server
6. starts any processes with `autostart = true`
7. runs each workflow named in `startup_workflows` in order
8. starts watching the configured `root`

Before starting a managed process with a loopback HTTP readiness probe,
`devloop` checks whether it can bind that process-owned readiness address. An
occupied address, including one that is bound but not yet accepting
connections, stops startup with a non-zero error that names the process and
address. The colliding session does not enter its restart loop or disturb the
existing listener. This check is per configured address: concurrent sessions
and worktrees remain independent when they use different ports.

The in-memory session state is authoritative for the running process.
Edits made directly to the JSON file while `devloop` is running are not
merged back into the live session.

## Watching and debounce

`devloop` derives concrete filesystem watch targets from the configured
watch-group patterns and watches only those files or directories.

- Only relevant file-system events are considered.
- Events are batched for `debounce_ms`.
- Matching changes are grouped by workflow name before execution.
- Each workflow receives the set of changed relative paths that matched
  it during the debounce window.
- The default backend uses native filesystem notifications. A polling
  backend can be selected in config as a fallback for environments
  where native events are unreliable.
- Literal file targets are watched as narrowly as the backend allows.
  The polling backend scans each file's immediate parent so deleting and
  recreating the file remains observable. A configured file, or a child beneath
  a recursive target, that disappears during a scan is transient. Pathless and
  registered-root errors remain fatal. Errors confined to unconfigured siblings
  do not widen the watch group's failure boundary.
  Use a trailing `/` in the config when you mean an explicit directory
  target that should be watched recursively.

If multiple watch groups map to the same workflow, their matched paths
are merged for that workflow run.

## Workflow execution

Workflows run step by step, in order.

- A step must finish successfully before the next one begins.
- `run_workflow` executes another named workflow inline.
- `triggers` run downstream workflows after the workflow succeeds.
- Triggered workflows are deduplicated across one execution tree. If two
  trigger paths reach the same workflow, it runs once from the first
  path that reaches it.
- Recursive workflow graphs are rejected at config-validation time.
- Config validation also rejects graphs where a direct trigger target is
  separately reachable through `run_workflow`, because that would make
  ordering and duplication ambiguous.
- `write_state` renders `{{state_key}}` templates against the current
  in-memory session state.
- `log` also renders templates against the current session state before
  emitting output.
- `notify_reload` broadcasts a generic `reload` event to browser
  listeners connected to `devloop`'s browser reload event stream.
- `publish_artifact` is one atomic workflow effect. The engine does not expose
  partial preparation or promotion steps.

If any step fails, that workflow fails immediately and logs the error
loudly, but `devloop` itself keeps running so later file changes or
external events can retry the workflow without restarting the
supervisor.

## Artifact publication

Artifact publication isolates destructive builds from live consumers. A build
failure deletes only its private candidate. A successful build becomes a named
generation, then devloop changes the active session state and restarts the
declared consumers. HTTP readiness succeeds only when its response body equals
the active generation. A mismatch or consumer failure restores the previous
state and process generation before the workflow reports failure.

Interrupted candidates are removed at the next publication. Successful
generations are retained newest-first according to the artifact's `retain`
limit. Cleanup failure after a ready switch is logged without failing the
already committed publication. Browser reload belongs in a triggered workflow, so clients are notified
only after exact-generation readiness succeeds.

See [Transactional Artifact Generations](artifacts.md) for the agent-facing
configuration and environment contract.

## Processes

Managed processes are long-running child commands.

- `start_process` is a no-op if the named process is already running.
- `restart_process` stops the child, then starts it again.
- Every external command, including managed processes and hooks, is
  launched in its own Unix process group through an internal Rust
  companion process. At run startup, `devloop` opens and retains the
  exact companion image, so an in-place installation update cannot
  change the guardian protocol for later hooks or restarts. The guardian
  remains outside the target group, ignores terminal-oriented signals,
  and watches a private lifetime channel owned by `devloop`. Managed
  targets restore ordinary signal handling before they start. Normal
  stop/restart/shutdown terminates the target group, and abrupt
  `devloop` disappearance closes the channel so the guardian kills the
  group and reaps its direct target.
  Children, grandchildren, and deeper descendants are covered while
  they remain in the inherited process group.
- A descendant that deliberately creates a new session or process group
  escapes portable Unix process-group containment. Such commands must
  provide their own shutdown integration instead of daemonizing beneath
  `devloop`.
- `wait_for_process` requires the named process to be running while it
  waits on the configured readiness probe. Persisted readiness state from
  an earlier process instance cannot make a stopped or failed process ready.
- State keys populated by a process's output rules belong to that process
  instance. `devloop` clears them before every start attempt and when the
  process stops or exits, so a failed dependency cannot leave a stale URL or
  other process-derived value available to later workflows.
- `restart = \"always\"` restarts a child after any exit unless
  `devloop` is shutting down. A child that exits while a startup workflow is
  waiting for its first readiness result is treated as a failed start and is
  not restarted before that startup failure terminates the session. Later
  runtime workflows preserve the configured restart policy.
- `restart = \"on_failure\"` restarts only after unsuccessful exit.
- `restart = \"never\"` never restarts automatically.
- Restart policies use the managed command's exit status. A wrapper that
  exits successfully after its long-running child dies is not restarted by
  `on_failure`; the service remains down. For development-server wrappers,
  use `restart = \"always\"` or propagate the child's exit status. A liveness
  probe can detect a dead child only while its wrapper remains running; a
  readiness probe only checks startup and does not supervise ongoing health.
- Managed child processes inherit the ambient environment unless the
  process config explicitly overrides individual variables such as
  `env.RUST_LOG`.
- Before a process is spawned, `devloop` expands `$NAME` and `${NAME}`
  references in process command arguments and configured process
  environment values from its own parent environment. Use `$$` for a
  literal dollar sign.
- HTTP readiness and liveness probe URLs use the same expansion when the
  probe is checked.
- Missing or malformed environment references fail loudly with the
  field name so the configuration error is visible.
- Workflow failures include their complete causal error chain and leave the
  runtime watching in degraded mode when it is safe to continue.

Liveness probes are checked on the configured interval while the process
is running. If a liveness probe fails and the restart policy allows it,
the process is restarted.

## Hooks

Hooks are one-shot commands executed inside workflows.

- Hooks run to completion before the workflow continues.
- Hooks use the same guarded process-group lifecycle as managed
  processes, including cleanup after abrupt `devloop` termination.
- Hook stdout and stderr are captured fully, then rendered with a source
  label if `hook.<name>.output.inherit` is enabled.
- Hook output defaults to `body_style = \"dim\"` so helper-command output
  is visible but visually secondary.
- Hook capture is independent of hook output rendering.
- `capture = \"text\"` trims stdout and stores it in `state_key`.
- `capture = \"json\"` parses stdout as a JSON object and merges it into
  the session state.
- A non-zero hook exit status fails the workflow after any captured
  stdout and stderr have been rendered.

Hooks can also be observed outside workflows.

- If `hook.<name>.observe` is configured, the runtime polls that hook on
  the configured interval during normal maintenance ticks.
- If running the hook changes session state, the configured observe
  workflow is scheduled immediately.
- If the hook leaves session state unchanged, no follow-up workflow is
  run.

Observed hooks remain useful as a cheap fallback when push integration
is not worth the extra control surface. For lower-latency and less
noisy event flows, prefer external events instead.

## External events

If `event.*` config is present, `devloop` starts a localhost HTTP server
for constrained event ingestion.

- Each configured event maps to one fixed session-state key and one
  fixed workflow.
- Child processes receive the event URLs and bearer token in their
  environment.
- Posting the same value again does not rerun the workflow.
- Posting a new accepted value updates session state first, then
  schedules the configured workflow immediately.
- Invalid tokens are rejected.
- Values that fail the configured regex pattern are rejected.

## Browser reload events

If any workflow uses `notify_reload`, `devloop` starts a localhost SSE
server for browser listeners.

- Child processes and hooks receive `DEVLOOP_BROWSER_EVENTS_URL` in
  their environment.
- `notify_reload` broadcasts a single `reload` message to all connected
  listeners.
- In phase 1, client repositories still need a tiny dev-only listener
  script that subscribes to the SSE stream and calls
  `window.location.reload()` when asked.

## Output rendering

`devloop` uses a line-oriented, pipe-based output model.

- Terminal-native subprocess UIs are a non-goal.
- Child stdout is forwarded to `devloop` stdout.
- Child stderr is forwarded to `devloop` stderr.
- `devloop` engine and process logs are emitted through `tracing`.
- Managed-process and hook output is source-labeled as
  `[executable process-name]`.
- Internal `devloop` and dependency logs are grouped under
  `[devloop ...]` labels so the emitting supervisor remains visible
  first.
- When output color is enabled, labels are colorized per source.

### Session logs

Every `devloop run` also persists a per-session log under the `logs/`
directory beside its state file. With the default state file, that is
`.devloop/logs/`. `devloop` reports the selected path at startup.

The persistent log contains `tracing` output and labeled managed-process and
hook output. It records that child output even when `output.inherit` hides it
from the terminal. `devloop` creates the directory and log before starting the
runtime; a creation failure stops startup rather than running without durable
evidence.

Devloop ignores the active session-log file when classifying watch events, so
broad patterns such as `**/*` do not retrigger workflows on that log write.
Other files in the same `logs/` directory remain normal watched files.

`devloop` does not rotate or delete session logs. The client owns retention;
add `.devloop/` to the client repository's `.gitignore` when using the default
state-file location.

### Color rules

Colorized output is enabled when stdout is a terminal and `NO_COLOR` is
not set.

- `body_style = \"plain\"` preserves subprocess body text as-is.
- `body_style = \"dim\"` dims both the inherited source label and body
  text.
- When a subprocess emits ANSI SGR color sequences while `body_style =
  \"dim\"`, `devloop` reapplies dim after each SGR sequence so the
  original tint is preserved as much as the terminal allows.
- Source-label colors intentionally avoid bright white because it is too
  visually aggressive in mixed logs.

### Carriage returns and line boundaries

`devloop` prefers visibility over terminal redraw semantics.

- `\\r` is treated as a visible line boundary.
- `\\r\\n` does not double-print.
- Output is buffered by line before each write so prefixes do not split
  mid-line.
- UTF-8 multibyte sequences are buffered before decoding so characters
  such as `μ` survive inherited output rendering.

This is meant for readable supervised logs, not PTY emulation.

## Output-derived state

Long-running processes can write values into session state by matching
their inherited output against configured rules.

- Rules run on the raw output stream, line by line.
- Regex extraction uses the configured `capture_group`.
- `url_token` extracts the first token that looks like a
  `trycloudflare.com` URL.
- State keys configured in output rules are cleared before the process
  starts.

This is how a process such as `cloudflared` can publish a readiness
value without wrapper scripts.

## Readiness and liveness probes

HTTP probes succeed on an HTTP success status.

State-key probes succeed when the referenced session-state key exists
and is not empty after trimming.

These probe types are used both for workflow waiting and for ongoing
liveness checks.

## Session state

Session state is shared across the running engine, workflows, hooks, and
output-derived updates.

- `root` is written into session state when the engine starts.
- `last_workflow` and `last_changed_files` are updated for top-level
  workflow runs triggered by watches or startup execution.
- Nested `run_workflow` calls reuse the same session state without
  overwriting the top-level change context.
- Triggered workflows inherit that same top-level change context.

## Shutdown

On `ctrl-c`, `devloop`:

1. marks itself as shutting down
2. stops watching without requiring configured watch targets to be
   disjoint or unique
3. stops all managed processes
4. suppresses further automatic restarts
5. exits successfully

Overlapping recursive and literal watch patterns are valid. A redundant
watch registration or an already-removed backend watch cannot interrupt
process cleanup during shutdown.

## Known non-goals

- PTY emulation
- full-screen terminal UIs
- byte-exact reconstruction of combined stdout and stderr ordering after
  a child has already split output across file descriptors
";

/// The development guide.
pub const DEVELOPMENT: &'static str = "# Development Guide

This guide covers local development workflows for `devloop` itself.

## Quality gates

Run the standard checks before committing:

```bash
cargo fmt
cargo test
cargo clippy --all-targets --all-features -- -D warnings
./scripts/ci-smoke.sh
```

`./scripts/ci-smoke.sh` is the fast runtime smoke test used in CI. It
checks that `devloop run` can start, begin watching, react to one file
change, and shut down cleanly.

## Releases

`devloop` releases are tag-driven. Push a tag such as `v0.8.0` and the
platform release workflows publish the Linux and macOS archives.

GitHub release notes are generated from the matching section in
`CHANGELOG.md`, not from GitHub's automatic PR summary. The Linux
release job publishes the changelog text and compare link; the macOS job
only attaches its archive asset to that same release.

## Opt-in watch flake smoke

The repeated-edit watch flake smoke test is intentionally opt-in. It is
useful when changing watch registration, debounce logic, or event
delivery, but it is slower and more environment-sensitive than the
standard test suite.

Run it locally with:

```bash
DEVLOOP_RUN_WATCH_FLAKE_SMOKE=1 cargo test --test watch_flake_smoke -- --nocapture
```

Without that environment variable, the test exits early so normal
`cargo test` and CI runs stay fast.

## Test policy

When a test must mutate process-global state such as environment
variables:

- serialize access with a test-local lock
- keep `unsafe` in a narrow helper
- document the safety rationale at the helper

Do not scatter raw `unsafe { std::env::set_var(...) }` calls across test
bodies.
";

/// The security notes.
pub const SECURITY: &'static str = "# Security Notes

This document describes the trust model and security tradeoffs for
`devloop` features that accept input from outside the core watch loop.

## Threat model

`devloop` supervises local processes, runs hooks, persists session
state, and can trigger workflows that restart services or execute local
commands. Because of that, any external input path must be treated as a
potential local code-execution capability.

The main concern is not just state mutation. The real chain is:

1. an external caller changes `devloop` session state
2. that change triggers a workflow
3. the workflow may run hooks or restart processes
4. those hooks and processes may execute arbitrary local commands

So a loosely designed control endpoint would effectively become a local
command-execution surface.

## Current external event model

`devloop` supports config-declared external events over an HTTP server
bound to localhost.

Key constraints:

- The listener binds only to the configured local socket address.
- Each `devloop run` generates a fresh random bearer token.
- Child processes receive the event URLs and token through environment
  variables.
- Clients cannot choose arbitrary state keys or arbitrary workflows.
  Config maps each event name to one fixed `state_key` and one fixed
  follow-up `workflow`.
- Event payloads are data only. They are never treated as shell code.
- Optional regex validation can constrain accepted payload values.

That means the capability is intentionally narrow:

- allowed: post a value to a predeclared event such as `browser_path`
- not allowed: ask `devloop` to run an arbitrary workflow
- not allowed: write arbitrary session-state keys
- not allowed: execute commands directly

## Residual risks

This feature still has a real security cost.

- Any same-user local process that can read the bearer token can likely
  send valid events.
- If a supervised child process is compromised, it can use the token
  and event URLs that `devloop` injected into its environment.
- A bad config mapping can still produce dangerous behavior if it routes
  an untrusted event into a sensitive workflow.
- Localhost-only binding reduces exposure, but it is not a full
  security boundary on a multi-process development machine.

So the token is meant to reduce accidental or drive-by misuse. It is
not a hardened defense against a malicious same-user local process.

## Push versus polling

There are two general ways to feed dynamic local state into `devloop`.

### Push

Example: a development web server receives a browser-path update and
forwards the path to `devloop`.

Advantages:

- immediate updates
- no repetitive polling noise
- lower idle CPU and process churn
- cleaner event-driven architecture

Costs:

- larger protocol surface
- more security-sensitive
- requires capability design and documentation

### Polling

Example: an observed hook polls a local endpoint and reruns a workflow
only when session state changes.

Advantages:

- simpler to implement
- no local listener inside `devloop`
- lower security exposure

Costs:

- more latency
- repeated helper-command execution
- can be noisy if hook output is inherited

## Guidance

Use push when:

- the event is precise and user-facing
- low latency matters
- the calling process already has a clear trust relationship with
  `devloop`

Use polling when:

- the integration needs to stay simple
- the extra local listener is not justified
- a small amount of latency or redundant work is acceptable

## Non-goals

The external event system is not intended to become:

- a generic remote-control API
- an arbitrary workflow runner
- a writable key-value store for any client
- a replacement for authenticated service-to-service protocols
";

/// The guide to artifacts.
pub const ARTIFACTS: &'static str = "# Transactional Artifact Generations

Use artifact generations when a build command replaces a directory that a
long-running HTTP server is already serving. A status-only readiness probe can
observe the server while its asset manifest still points at deleted files.
`publish_artifact` prevents that mixed state.

This guide is also available in the CLI:

```bash
devloop docs artifacts
```

## Agent rule

If a rebuild deletes or replaces served output, configure an artifact. Do not
teach a workflow to delete the live directory, restart the server, or poll `/`
with a status-only probe. Devloop must own the candidate directory, generation
switch, exact readiness check, rollback, and retention.

## Complete configuration

```toml
root = \".\"
startup_workflows = [\"build_site\"]

[watch.site]
paths = [\"src/**\", \"public/\"]
workflow = \"build_site\"

[hook.build_site]
command = [\"./scripts/build-site.sh\"]

[process.site]
command = [\"./scripts/serve-site.sh\"]
autostart = false

[process.site.readiness]
kind = \"http\"
url = \"http://127.0.0.1:8787/__devloop_generation\"
expect_body = \"{{ artifact.site.generation }}\"
interval_ms = 250
timeout_ms = 30000

[artifact.site]
build_hook = \"build_site\"
consumers = [\"site\"]
retain = 2

[workflow.build_site]
steps = [{ action = \"publish_artifact\", artifact = \"site\" }]
triggers = [\"browser_reload\"]

[workflow.browser_reload]
steps = [{ action = \"notify_reload\" }]
```

The build hook writes only to `DEVLOOP_ARTIFACT_CANDIDATE`. The consumer reads
`DEVLOOP_ARTIFACT_SITE_DIR` and `DEVLOOP_ARTIFACT_SITE_GENERATION` from its
environment, serves that directory, and returns the generation value as the
complete response body of `/__devloop_generation`. Artifact names are converted
to uppercase environment components; non-alphanumeric characters become `_`.
Artifact names must start with a lowercase letter and contain only lowercase
letters, digits, and underscores.

Set artifact consumers to `autostart = false` and put the publication workflow
in `startup_workflows`. The publish action starts each stopped consumer after a
successful initial build.

## Guarantees

For each publication, devloop:

1. removes incomplete candidate directories left by an interrupted build
2. creates a private candidate directory
3. runs the build hook with candidate and generation environment variables
4. preserves the live process and active generation if the build fails
5. makes the completed directory immutable by generation name
6. switches session state and restarts the declared consumers
7. accepts readiness only when the response body matches the expected generation
8. restores and restarts the previous generation if switching fails
9. removes old generations beyond `retain`
10. runs downstream triggers, including browser reload, only after success

The workflow API deliberately exposes only `publish_artifact`. Partial
`prepare_artifact` or `promote_artifact` steps do not exist because their order
would be easy to misconfigure.

Once consumers pass exact-generation readiness, the switch is committed.
Failure to remove an older retained directory is logged but cannot turn that
successful switch into a failed workflow. An interrupted, unverified switch is
marked in session state and conservatively restored on the next publication.

## Environment

During the build hook:

- `DEVLOOP_ARTIFACT`: configured artifact name
- `DEVLOOP_ARTIFACT_GENERATION`: candidate generation identifier
- `DEVLOOP_ARTIFACT_CANDIDATE`: absolute candidate directory
- `DEVLOOP_ARTIFACT_<NAME>_GENERATION`: same candidate identifier
- `DEVLOOP_ARTIFACT_<NAME>_DIR`: same candidate directory

After promotion, every hook and managed process receives the named `DIR` and
`GENERATION` variables for every active artifact. Project code remains
responsible only for writing to the supplied directory, serving the supplied
directory, and returning the supplied generation from its readiness endpoint.
";

} // verus!
