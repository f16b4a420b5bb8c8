# re_plistbuddy

The logic of the `PlistBuddy` and `plutil` command-line tools as a Verus
library, with each function's behaviour stated in its contract and proved.

- `src/value.rs`, `src/tree.rs`: the property-list value, its mathematical
  model (`Node`), and paths into it.
- `src/plist_buddy/`: PlistBuddy's command line, command tokens, the
  commands themselves, how their results are answered, and laws relating
  the commands (`laws.rs`).
- `src/plutil/`: plutil's command line, key paths, JSON reading and
  writing, base64, natural key order, Swift and Objective-C output, `-p`
  and raw output, and what is written for each file (`process.rs`).
- `src/dates.rs`, `src/num.rs`, `src/text.rs`, `src/output.rs`: shared
  pieces (date display, numbers, text, output pieces).
- `app/`: the two programs: file and terminal I/O, the Core Foundation
  reader and writer, and the floating-point and local-time formatting that
  the library leaves to its caller.
- `tests/`: tests of the library.
