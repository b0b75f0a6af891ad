# youarehere

A minimalist shell prompt showing the user, hostname, directory, and git
branch, as one line:

```text
eljpsm@laptop ~/src/github/eljpsm/youarehere (main v0.1.0)
```

The library in `src/` is verified with Verus. It decides every byte of the
line from plain values:

- `shell`: the bash, zsh and fish dialects, their init snippets, escaping and
  color markers;
- `path`: paths as text with the component structure of a Unix path, the
  home abbreviation, parents, joins and ancestors;
- `git`: reading HEAD, `.git` files and git's tag output, and the walk up
  the directory tree that finds a repository;
- `prompt`: rendering the line and choosing user, host, directory and color
  from the surroundings;
- `cli`: the parsed command;
- `text`: the character operations the others share.

The binary in `app/` parses the command line with clap, reads the
environment and the file system, runs git for exact tags, and prints.
