# jchtools

The logic of JchTools, a desktop tool that tidies directories: it finds duplicates and
left-overs, extracts archives recursively with an external 7-Zip engine, commits and pushes
repositories file by file, sorts files by what they are for, and turns recordings into text.

`src/` is a library verified with Verus. Every function states in its contract what it
returns or changes; proof functions named `law_…` state what holds across functions. It does
no input or output of its own.

* `archive`: names of volumes, archive listings, the decisions of an extraction, the queue
* `engine`: scanning, hashing, executing a plan, cleaning up, the course of a task
* `engine_bundle`: the carried engine, its manifest, and which engine is used
* `functional`: grouping files by the words in their names and paths
* `git_tools`: reading `git status`, committing and pushing one change after the other, and
  what is told meanwhile
* `gui`: the state behind the window, and what each command and event does to it
* `media`, `cli`: the decoded sound, the command line
* `config`, `config_json`, `json`, `rules`: the rules of a task
* `db`, `hash_cache`, `hashing`: what is stored, and under which identity
* `fsutil`, `text`, `order`, `convert`, `control`, `error`, `model`: shared by the others

What is believed of outside crates without proof stands beside its use, each with a comment
that says what is claimed: the items marked `external_body`, `assume_specification` and
`uninterp`.

`app/` is the program around it: files, processes, the database, threads and floating point.
