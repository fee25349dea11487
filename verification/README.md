# Bouncer

Bouncer is a Telegram bot that gates entry to private groups: an applicant
who asks to join is sent a start button, then a topic question generated by
a language model, and is admitted only if the model accepts the answer. A
rejected applicant (wrong answer or missed deadline) waits out a cool-down
before trying again.

## Layout

- `src/` is the library, written in Verus and verified: the configuration
  rules, the locales and `{placeholder}` rendering, the prompts and the
  tolerant reading of the model's replies (including the sanitising of
  untrusted answers), the stored stages and outcomes with their transitions
  and statistics, the statistics report, and every decision of the
  verification flow (what a join request, a button press, an answer, a
  timeout or a restart leads to).
- `app/` is the program around it: command line, YAML loading, the SQLite
  database, the model endpoint, the Telegram dispatcher and the timers. It
  gathers what the library needs, asks it what to do and carries out the
  plan.
- `tests/` runs the library on concrete values.
