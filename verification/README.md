# bucketcode

An agentic coding harness that edits **one bucket at a time** instead of
rewriting files, with its rules proved in Verus.

A conventional coding agent pastes a file into the model and asks for a rewrite.
bucketcode gives the model a map of the program, every function's address,
contract, and one-line English description, and lets it pull in only what it
decides it needs.

## Layout

- `src/` is the library. Everything in it is verified: the search, the cuts into
  the source, the gates that a change has to pass, the session with the model,
  the spend limits, the guards on files and commands, the requests to the API and
  the reading of its answers, the routes and payloads of the web UI.
- `app/` is the program around it: arguments, files, processes, the network, and
  the calls into the language, which lives in a crate of its own.
- `tests/` runs the library on concrete values.

## What is proved

- A change is taken over only when the program compiles, exactly what was meant to
  change did, and the tests pass. A change that is rejected leaves the source as
  it was.
- A request is made only when the ceilings on requests, tokens and money admit it.
  A run makes no more requests than turns, and none after one was refused. The
  money spent is exactly what the tokens cost.
- A path that resolves lies inside the project root; a link that leads nowhere does
  not resolve. A command that may run is on
  the allowlist, keeps to the permitted subcommands, and has no shell operator in
  any argument; every attempt is logged.
- Every tool call of a turn is answered once, under its own id, in one message.
- An upload to the web UI lands beside the open file, never in its place.
- A search returns the best matches first, at most as many as asked for, and
  misses none below that.

Money is counted in microcents, and scores in hundredths, so that no rule rests
on rounding. `--model` takes the model's id as the service knows it; so does the
environment variable `ANTHROPIC_MODEL`.
