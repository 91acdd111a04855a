# ftracker_identifiers

Validated financial and corporate identifiers, verified with Verus:

| Type          | Standard             | Rules checked                                          |
|---------------|----------------------|--------------------------------------------------------|
| `Cnpj`        | Brazilian CNPJ       | punctuation stripped, 12 alphanumerics + Módulo 11 digits, not one repeated character |
| `Isin`        | ISO 6166             | letters, alphanumerics, Luhn check digit                |
| `Lei`         | ISO 17442            | alphanumerics, ISO/IEC 7064 MOD 97-10 check digits (02-98) |
| `Cfi`         | ISO 10962            | category, group and attribute codes of the taxonomy    |
| `CountryCode` | ISO 3166-1 alpha-2   | membership in the officially assigned code set         |

Every constructor normalizes its input (surrounding whitespace, ASCII case) and then validates
it; the contracts state both steps as specification functions over the input's characters, and
each value type carries a type invariant saying that it holds a valid identifier.

Layout:

- `src/` — the verified library. `text.rs` holds the shared text handling (trimming, case
  folding, first-failure scans, number rendering); each identifier has a module with its error
  type, its parser (normalization), its validation rules and its value type. `src/cfi/table.rs`
  and `src/country/table.rs` embed the code tables with proofs of their well-formedness, and
  `src/cfi/seed.rs` builds the CFI table rows from a code-only seed and renders them as the
  source of a `CATEGORIES` entry table.
- `tests/` — the test suite.
- `app/` — what the library cannot carry itself: serde and JSON Schema for copies of the value
  types, `Display`/`Error` for copies of the error types, and the tool that reads the CFI seed
  file and writes that entry-table source.
