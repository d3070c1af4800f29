# devloop

A supervisor for local development: it watches files, runs processes and hooks, and executes
ordered workflows that a TOML file configures.

The library under `src/` holds the decisions of the supervisor as verified functions: what a
configuration may say, what a workflow does next, what follows from a change of a file, from an
exit or from a posted event, how output is cut into lines, labeled and shown, and what the session
state holds. Each function states in its contract what it returns or changes. What holds of
several functions together is stated by the proof functions whose names begin with `law_`.

The program under `app/` does the rest: it reads files, starts processes, serves HTTP, and asks
the library what to do. It is installed twice, as `devloop` and as `devloop-process-guardian`; under
the second name it guards one command, and kills its process group when the supervisor is gone.

| Module | What it decides |
| --- | --- |
| `config`, `validate`, `graph` | the configuration, and when it is refused |
| `engine`, `runtime`, `workflow` | what is done next |
| `process_manager`, `supervisor`, `probes`, `termination`, `process_guardian` | processes |
| `commands`, `env_expand`, `hooks` | what is run, with which environment, and what comes of it |
| `watch`, `paths`, `patterns` | which changes concern which workflow |
| `forward`, `lines`, `render`, `output`, `output_rules`, `session_log`, `banner` | output |
| `state`, `json`, `value`, `template`, `name_map`, `text` | the session state |
| `external_events`, `browser_reload` | the two servers |
| `docs`, `markdown` | the built-in documentation |

Calls into other crates stand behind small functions that are marked `external_body`. Their doc
comments say what is believed of the call.
