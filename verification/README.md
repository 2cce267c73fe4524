# Platypus

An unattended meeting recorder: it notices a meeting, records and transcribes it,
and leaves a transcript behind.

The rules live in `src/`, a library whose contracts Verus proves:

- `portable`: whether data lives next to the executable, and where each part goes
- `secret`, `base64`: how keys are sealed before they are stored
- `settings`: how settings are stored, their defaults, and what each decides
- `meeting_detector`, `meeting_title`: when a meeting begins and ends, and with whom
- `loopback_capture`, `realtime`: buffering sound and cutting it into chunks
- `session`: the transcript and the timed utterances of a running recording
- `transcript_export`, `clock`: the files and notes that a meeting leaves
- `documents`: importing documents
- `vectorize`: adding chunks to a vector index
- `self_test`: the report of a trial recording
- `text`, `unicode`: the text functions that the rest is built on

`app/` is the program around it: files, the settings database, processes, devices
and arithmetic on samples. `tests/` runs the library on examples.
