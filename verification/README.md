# todone

A log of what you did each workday, for the terminal: yesterday's "did" and today's
"planning", with vim's keys, a history, settings, and what GitLab and a calendar
feed know of the day.

`src/` is a library whose functions state what they do in `requires` and `ensures`
clauses that Verus proves. `app/` is the program around it: files, network,
clipboard and screen.

| module | what it is |
| --- | --- |
| `text` | strings as sequences of characters |
| `date` | the days of the calendar |
| `key`, `style` | key presses, and styled text for the screen |
| `area`, `vim` | a text area, and vim's keys on it |
| `storage` | the log by day, workdays |
| `app` | the today screen |
| `history` | the days as cards or rows |
| `format` | what is put on the clipboard |
| `context` | the context pane, word-wrap |
| `config`, `settings` | the settings and their screen |
| `help` | the list of keys |
| `json`, `gitlab`, `gitlab_api` | GitLab events, their summary, and what to ask for |
| `calendar` | events of an iCalendar feed |

What the outside crates do is stated where they are called: in the functions marked
`external_body` of `area`, `calendar`, `date` and `json`, each of which says in its
doc comment which function it calls and what it claims of it. Beside them stand a
few functions of std in `storage`, `text` and `vim`.

The log is kept in `todone/entries.json` under the user's data directory, the
settings in `todone/config.toml` under the configuration directory.
