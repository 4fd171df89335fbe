# Virtual branches

Several branches of work in one working directory: every hunk of the working directory belongs to
one of them, and each can be committed, pushed, applied and unapplied on its own.

- `src/` is the library, written and verified with Verus. It decides; it does no I/O. An operation
  runs on a tape of replies and either comes to an end or says what it has to be told next
  (`protocol`). Run again with one more reply, it goes on from there.
- `app/` runs the operations on a git repository: it answers the requests with `git2` and a `Host`
  that stores the branches.
- `tests/` runs the operations against scripted replies.

What an operation does is stated as a function from replies to an outcome, the `.._flow` of its
name; what follows for all inputs is stated in the public proof functions. The central ones are in
`sharing` and `owning` (how the hunks of a diff are shared out among the branches), `ownership`,
`naming`, `places` (where a new branch stands), `reordering` (that the order of hunks and files does
not matter), `alignment` (that sharing out a diff again changes nothing), `round_trips` (what one
operation makes of what another left), `after_commit` (what is listed after a commit), `guards` and
`replay`.
