# Veloce

The logic of a cluster's worker and of its web console, written in Verus: every function of the
library has a contract, and the contracts are proved.

## Layout

- `src/` is the library.
  - The worker: `config`, `connection` and `commands` (what a worker does about each message),
    `job_flow`, `job_runner` and `launch` (how a job or a step is started, watched and reported),
    `recovery` and `records` (what is kept across restarts), `cgroups` and `bpf_filter` (limits
    and device filters), `resources` (what is measured), `outputs`, `inputs`, `pmi`, `pmix`,
    `terminal`, `log_manager`, `telemetry`, `apptainer` and `shell`.
  - The console: `web`, with a module for each page and for what the pages share.
  - What both rest on: `text`, `pieces`, `numbers`, `order`, `paths`, `envs`, `json`, `assets`
    and `model`.
- `app/` is the worker program around it: sockets, files, processes, the kernel's interfaces, and
  floating point numbers.
- `tests/` runs the library.

## Reading the contracts

A contract speaks of mathematical values: a text is a sequence of characters, a list of variables
is a map, and a function's result is given by a spec function that stands beside it. Public proof
functions whose names begin with `law_` state what holds of several functions together, such as
that records read back as they were written, that a job which was watched is reported, or that no
raw HTML is rendered.

Calls into other crates stand behind small functions with a contract of their own, which is
believed and not proved: the words of a shell command (`shell-words`), JSON (`serde_json`), the
encoding of records (`bincode`), Markdown (`pulldown-cmark`), fresh names (`uuid`), and a few
functions of the standard library on texts. Their doc comments say what is claimed of each.
