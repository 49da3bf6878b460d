# krillin_rs

The subtitle, configuration and dubbing-pipeline logic of the KrillinAI
video dubbing engine, written in Verus and proved against its
specifications. `app/` holds the server around it (HTTP handlers, external
tools, language-model and speech providers).

Library modules (`src/`):

- `text`: character-level text operations (`trim`, `lines`, `find`,
  `replace`, joining, decimal numbers) with their specifications.
- `subtitle`, `srt`: SRT cues, timestamps, reading and writing SRT files.
- `srt_roundtrip`: proofs that reading back what was written gives the
  cues written, and that writing what was read changes nothing.
- `emotion`, `prompts`: emotion tags for expressive speech and the prompts
  sent to the language model.
- `config`: configuration sections, defaults and validation.
- `provider`, `deps`, `media`, `storage`, `voice`: command lines and
  requests of the providers, the prepared reference voice, tool
  dependencies, probe output and ffmpeg command lines, tool locations
  (the files to look for, and the choice from what was found: `PATH`
  first, `./bin/` as the fallback) and reference-voice texts.
- `storage::task_store`: the store of subtitle tasks, a `DashMap` keyed by
  task id, whose reads give back what was written.
- `install`: the order in which missing tools are installed, and how `uv`
  is made available when it is missing, as step functions that `app/`
  drives, with the proofs that both always end.
