# super-release

A release tool for monorepos in the style of semantic-release: it reads the
conventional commits since each package's last release tag, works out the
next version of every package (stable, prerelease and maintenance branches,
dependency propagation, revert pairs), and then updates manifests and
changelogs, publishes, commits and tags.

The library in `src/` is verified with Verus; the command-line program in
`app/` does the file, process and git work around it.

- `commit`: conventional commit parsing, referenced issues, revert filtering.
- `version`: versions, bumps, next-version rules, propagation to dependents.
- `config`: branches, tag templates, configuration defaults and formats.
- `git`: tag scanning and indexing, `git log` parsing.
- `plan`: which commits belong to which package and the release plan.
- `package`, `resolver`: packages, `package.json` manifests, dependency order.
- `step`, `changelog`, `pm`, `preview`, `forge`, `github`, `run`: what the
  release steps decide (commands, notes, comments, filters, messages).
- `text`, `matcher`: string operations and the regular-expression calls.

Laws of the library are stated as `law_*` proof functions next to the
functions they are about.
