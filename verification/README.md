# kyyn-plugins

Evidence sources for [kyyn](https://github.com/drshade/kyyn) knowledge bases: `sweep` (a
directory), `git-repo`, `kb` (another knowledge base), `pack` (a template at a pinned
commit), `salesforce` (a SOQL query), and the Microsoft Graph family (`graph-mail`,
`graph-calendar`, `graph-meetings`, `graph-chats`, `sharepoint-file`).

- `src/` is the library, in Verus: what the sources decide and compute. Every function
  states in its contract what it returns, and the `law_*` proof functions state what holds
  across functions. It performs no I/O.
- `app/` is the tap binary around it: files, git, HTTP, tokens on disk, and the plugin
  contract of the engine.
- `tests/` runs the library with the crates it is linked against.

## How a source runs

The library offers each run as a state that says what is needed next and takes what came
of it:

| Source | State | Asks for | Takes |
| --- | --- | --- | --- |
| `sweep` | `sweep::Sweep` | a file's size, then its bytes | `measure`, `take` |
| `git-repo` | `git::Snapshot` | a file's size, then its bytes | `measure`, `take` |
| `kb` | `kb::Federation` | a file's bytes | `take` |
| `pack` | `pack::Import` | a file's bytes | `take` |
| `salesforce` | `salesforce::SoqlRun` | a page | `judge`, `page` |
| Graph requests | `graph::client::Exchange` | one attempt | `judge` |
| Graph collections | `graph::client::Pager` | a page | `page`, `missing` |
| attachments | `graph::sync::AttachmentSweep` | an attachment | `received` |
| meeting files | `graph::artifacts::Search` | a collection, a transcript | `meetings`, `transcripts`, `content`, `reports`, `records` |
| chats | `graph::sync::ChatCrawl` | a page | `page`, `missing` |
| shared folders | `graph::folder::FolderWalk`, `FolderRun` | a listing, a file | `children`, `received` |

## What is trusted

Calls into `ron`, `serde_json`, `glob`, `regex-lite`, `chrono`, `sha2`, `base64`,
`kindred-core` and a few functions of std stand behind small wrappers whose contracts are
believed. Each says above it which function it calls and what is claimed of it. What such
a call returns is mostly given a name, and the logic behind the call stands in a function
of its own that takes the result as an argument.
