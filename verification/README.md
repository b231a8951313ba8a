# cc1

The semantic analysis of a C90 (ISO/IEC 9899:1990) compiler front end for
the i386 and x86_64 targets, written in Verus. Given the syntax tree of a
translation unit, it resolves names in their scopes, gives every expression
its type and conversions, checks the constraints of the standard, folds
integral constant expressions, lays out structures and unions, and reports
what it refuses as diagnostics.

Each function states its behaviour in `requires` / `ensures` clauses over
mathematical models of the analysis (sequences, maps, spec functions), and
Verus proves the code against them, including that nothing overflows or
panics.

## Layout

- `src/ast`: the syntax tree the analysis reads, and its well-formedness.
- `src/target.rs`: the two targets, their type sizes and value ranges.
- `src/semantic/sema.rs`: the analysis state and its invariant.
- `src/semantic/model`: types, symbols, tags, functions, implicit casts and
  their rules (compatibility, composite types, conversions).
- `src/semantic/constrain`: the constraints on declarations, parameters and
  external definitions.
- `src/semantic/resolution`: scopes, declarations, expressions, statements
  and function definitions.
- `src/semantic/eval`, `src/semantic/ice.rs`: integral constant expressions.
- `src/semantic/layout.rs`: sizes, alignments and member offsets.
- `src/semantic/message.rs`, `src/semantic/model/display.rs`: diagnostic
  messages and type names as text.
- `src/semantic/analyzer.rs`: the passes over a translation unit.
- `tests/`: tests of the library on concrete inputs.
- `app/`: a thin driver that prints the diagnostics of an analysis.
