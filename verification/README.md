# offcut

Offcut finds development projects under the configured workspace roots, judges
each by the state of its git repository, and reclaims the untracked junk that is
safe to remove. It leaves projects with uncommitted or unpushed work alone, never
deletes what an ignore rule protects, and deletes nothing that the user has not
agreed to, be it by a pattern in the catalog, by an answer or by `--force`.

The library under `src/` holds everything that is decided: it is written in
Verus, and what each function returns is stated in its contract and proved. The
program under `app/` runs git, walks the file system and talks to the terminal;
it asks the library what to do next and hands back what it found.

## The library

| module | what it decides |
|--------|-----------------|
| `text`, `paths` | text as sequences of characters; paths by their components |
| `config`, `session` | which configuration a run goes by, and the smaller commands |
| `ignore_rules`, `safelist` | which paths are protected, and which may go without asking |
| `discovery` | which folders are projects |
| `classify`, `labels` | what state a project is in, and how that is put |
| `clean` | what is to become of every untracked item, and what git is told |
| `interactive`, `cleaning` | what is asked, what is agreed to, what is done |
| `disk`, `survey` | what cleaning would free, and the listings |
| `columns`, `style`, `layout`, `output`, `progress` | what a terminal is shown |
| `json` | the documents of `--json` |
| `fit`, `visible`, `colored`, `replay` | laws of what a terminal shows |

Functions that need to know something of the outside world say so: they return
the next question (a git command to run, a folder to walk, an answer to read) and
are called again with one more reply.

## What is taken on trust

The wrappers around outside crates, each with the contract it is believed to
meet: gitignore matching (`ignore`), globs (`glob`), display widths
(`unicode-width`), styles (`owo-colors`), and the user's directories (`dirs`).
They are marked `#[verifier::external_body]`; next to each stands what is claimed
of it. Two functions, `String::push` and the `clone` of a gitignore matcher, are
called directly and have an `assume_specification`.
