# addrkit

Cleaning up, formatting, validating and parsing postal addresses, with
the library's functions verified by Verus against contracts over the
character sequences of their inputs. Two small functions are trusted
rather than verified, since vstd gives their std counterparts no
specification: `text::push_char` (std's `String::push`) and
`text::unicode_uppercase_of` (std's `char::to_uppercase`, whose result
is named, not stated).

## Layout

- `src/text.rs`: character-level building blocks and their specs:
  Unicode whitespace, words, joining, splitting on line breaks and commas,
  upper-casing, digits.
- `src/states.rs`: the table of US states, DC and territories with their
  two-letter codes.
- `src/address.rs`: `Address` and `ValidationIssue`, the field
  normalizations (`normalize_whitespace`, `normalize_us_postal_code`,
  `normalize_us_region`), `validate`, the US and international layouts
  (`format_us_address`, `format_international_address`,
  `format_address`) and `parse_us_address`.
- `src/cli.rs`: the command line as a pure function from arguments to
  output (`run`, `parse_address`, `usage`).
- `src/laws.rs`: properties proved of the functions above: idempotence of
  the normalizations, the shape of normalized whitespace, every table
  entry normalizing to its code, region lookup ignoring ASCII case and
  whitespace runs, the country line of a US block, line breaks and commas
  being interchangeable in parsed text, and parsing a formatted US block
  back.
- `app/main.rs`: the `addrkit` binary, which reads the arguments and
  prints what `run` returns.
- `tests/`: tests of the library and the command line.
