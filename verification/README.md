# deepseek_monitor

The logic of a desktop monitor for DeepSeek platform API usage, verified with
Verus: the usage report (token counts per model and per day, cache hit rates,
cost terms, the reported day, the model whitelist), the endpoint settings and
their placeholders, the saved token and ball position formats, and the small
decisions around requests, logging and settings files.

- `src/` is the verified library.
  - `text`: characters, `replace`, `trim`, whitespace words.
  - `numeric`: integer parsing and printing, the `f64` literal grammar.
  - `endpoints`: request paths, token kinds, the model whitelist.
  - `config`: the user's settings and their defaults.
  - `data`: the usage report.
  - `token`, `ball`: the saved token and the saved ball position.
  - `service`: request URLs, response statuses, failure messages, logs.
  - `clock`: the local clock, read through chrono.
- `app/` is the desktop program around it: files, HTTP, JSON, the window,
  and the `f64` sums and rates of the report.
- `tests/` runs the library on concrete values.
