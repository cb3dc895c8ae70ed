# cfgv

Validate configuration and produce human readable error messages.

A schema describes a configuration value (maps, lists, keys that are
required, optional or conditional, and check functions for single values).
Validating a value against a schema either succeeds or fails with a nested
trace such as

```text
==> File .pre-commit-config.yaml
==> At Config()
==> At key: repos
==> At key: always_run
=====> Expected bool got str
```

The same schema fills in the defaults of optional keys (`apply_defaults`) and
removes values that equal their defaults (`remove_defaults`).

## Layout

- `src/` is the library, verified with Verus. Each public function states in
  its contract what it returns, over a mathematical model:
  - `value.rs`: `Value` and the insertion-ordered `ValueMap`, modelled by
    `SpecValue`; value equality (`veq`), lookup, insertion and removal.
  - `equivalence.rs`: value equality is symmetric and transitive on
    well-formed values, and map operations keep maps well-formed.
  - `text.rs`: the `repr`- and `str`-style renderings of values.
  - `error.rs`: `ValidationError`, its trace and its rendering.
  - `check.rs`: check functions; the outcome of a check (`check_outcome`),
    and the results a check can give whatever user-provided functions in it
    return (`check_gives`).
  - `convert.rs`: the conversions the constructors take their names, keys
    and defaults through.
  - `condition.rs`: the conditions of conditional validators.
  - `schema.rs`: schemas and validators; the outcome of validation
    (`schema_outcome`, and `schema_gives` where user functions decide) and the results of applying and removing defaults
    (`apply_spec`, `remove_spec`).
  - `load.rs`: what loading a file does once its contents were read and parsed.
  - `laws.rs`: properties that relate several functions, stated and proved as
    proof functions.
- `tests/` runs the library on concrete values.
- `app/` holds what the library does not: reading files, and turning parsed
  JSON and YAML documents (whose numbers may be floats) into values.
