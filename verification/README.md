# Codex CLI Token Insights

Token accounting for Codex CLI sessions, with a small web dashboard on top.

`src/` is a library written in Verus. It reads session files
(`~/.codex/sessions/**/rollout-*.jsonl`), works out the tokens of every turn, keeps them as rows
of a table, draws up reports by day and by month, and rebuilds the conversation of a session. The
contract of each function says what it returns; what holds across functions is stated in the
public proof functions of each module, and in `report_laws`, `schema_laws`, `sync_laws` and
`timeline_laws`.

`app/` is the dashboard: the web server, the database and the files. Prices are floating-point
numbers and are multiplied there.

How the counts of a turn come about:

- input = `input_tokens - cached_input_tokens`
- cached = `cached_input_tokens`
- output = `output_tokens`
- reasoning = `reasoning_output_tokens`, which is part of the output
- total = input + output

The API time of a session is the sum of the durations of its turns. The report on a month covers
the turns whose timestamps lie in that month; in place of a month (`YYYY-MM`) a pattern for the dates
of session files may be given, and the report then covers all that it selects.

JSON is parsed by `serde_json`; what the library believes of it, and of the two functions of the
standard library of which `vstd` says nothing, stands above the declarations in
`json` and `text`.
