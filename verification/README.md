# zen-metrics

Scores the quality of compressed images, sweeps codecs over grids of settings, and
runs such sweeps on a fleet of workers.

- `src/` is the library, verified with Verus. Every function states in its contract
  what it returns; laws that relate several functions are the proof functions named
  `law_*`. Calls into other crates stand behind functions marked `external_body`,
  each with the claim that is made of the call.
- `app/` is the program around it: the command line, files, processes, HTTP, and
  everything in floating point.
- `tests/` runs the library, linked with the real codecs.

| Module | What it holds |
| --- | --- |
| `text`, `json`, `tsv` | texts, JSON values and tab-separated tables as plain data |
| `decode` | telling image formats apart and decoding to 8-bit RGB |
| `metrics` | the metrics, which code computes them, the cache of GPU instances, metric servers |
| `orchestrator_runner` | the columns and options of the metric orchestrator |
| `output`, `compare`, `score_pairs`, `listing` | the commands that score and print |
| `sweep` | qualities, knobs, encoder settings, plans, the cells of a sweep and its feature files |
| `backfill` | redoing the features of finished sweeps |
| `jobexec` | running one job |
| `assemble` | joining score tables by their full keys, and the checks against leaks |
| `hdr` | which path an image of absolute luminance takes |
| `fleet`, `hetzner` | worker loops, scoped credentials, servers and their boot script |
