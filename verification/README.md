# ana

The core of `ana`, an environment manager for Python that solves conda and
PyPI requirements together. `src/` is verified with Verus: every function in
it has a contract, a method of a trait that of the trait, but for the one that
asks for the current directory, of which nothing can be promised. The
properties that span functions are proved as public proof functions next to
them. `app/` is the ordinary Rust around it: the file system, the terminal, the
network and the solver.

| module | what it does |
| --- | --- |
| `pyproject`, `pep723`, `requirements_txt` | read the requirements of a project, a script or a requirements file |
| `requirements` | selects groups of requirements |
| `marker`, `convert`, `matchspec_convert` | turn dependency specifiers into conda match specs for one platform |
| `conda_map` | keeps the table from PyPI names to conda names current |
| `paths` | places environments, their locks and their keys |
| `solver` | resolves channel names, and plans what a solve is given |
| `progress` | decides what a status line shows |
| `pep440`, `pep508`, `specifier`, `conda`, `names`, `toml` | versions, specifiers, match specs, names and documents as plain values |
| `text`, `sort`, `table`, `data`, `fields`, `dependency`, `platform`, `tool_ana` | what the others share |

Grammars that other crates define (PEP 440, PEP 508, conda match specs, TOML,
JSON) are read by those crates, behind small functions whose contracts are
taken on trust. Each says above it which function it calls and what it claims
of it. What such a grammar makes of a text has a name in the contracts, and the
logic behind it takes the outcome as an argument, so that it is proved for
every outcome. Where the outcome depends on what was read before, as the
normal form of a marker does, the name is that of the set of all outcomes.
