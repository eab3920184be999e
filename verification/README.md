# choreo_tools

The tools that a coding agent's daemon offers to a model: reading files and ranges of them,
searching, HTTP requests, PDF text, images, web pages, PowerShell, the device's clipboard and
notifications, and a report on a session.

- `src/` is the library. It decides what each tool refuses, what it asks for, and what it answers,
  and its functions are verified with Verus. Where it calls another crate, or a part of the standard
  library that Verus does not know, the call stands in a small function of its own whose contract is
  trusted; its doc comment says what is claimed. Names that begin with `law_` are statements on
  several functions at once.
- `app/` carries the decisions out: files, processes, the network, a browser, the device, the
  daemon.
- `tests/` runs the library on concrete values, with the outside crates linked.

Work that alternates between deciding and acting (a child process, a page that is rendered, an
image that is generated, a search) is a value with an `advance` method or its like: it takes what
happened and says what is to be done next.
