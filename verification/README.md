# av_rs

`av` manages stacks of git branches and their GitHub pull requests: each
tracked branch records its parent, the parent head it was made from, its own
head and its pull request.

- `src/` is the library, verified with Verus: the metadata store
  (`meta`), stack walks and their laws (`utils`), the decisions of each
  command (`commands`, `actions`), the GitHub client's request and reply
  handling (`gh`) and the configuration defaults (`config`).
- `app/` is the `av` program around it: the command line, git, HTTP, files
  and the environment. It asks the library what to do and does it.
- `tests/` runs the library on concrete values.
