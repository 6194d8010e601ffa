# sermcp

A server for the serial consoles of embedded Linux boards: it asks for a
configuration and edits it without touching what it was not told to touch,
keeps the logs of every boot, and sees to it that a serial endpoint and a
project have one server each.

- `src/` is the library. Everything in it is verified with Verus: the JSONC
  reader and locator, the text edits, the form and the answers, the renderer,
  the plan that turns answers into edits, locks, logs, boards' states, flashing,
  prompt colors, markers.
- `app/` is the program around it: files, processes, threads, the terminal.
- `tests/` runs the library.

Beside the contracts of the functions the library states what holds of them
together:

- What is written is read again (`written`, `kept`, `spelling`). A number with
  more than fifteen digits, or beyond 300 places on either side of the point, is
  no number here: it is refused, or kept as text where text may stand.
- A value is found where the grammar has it (`place`), in documents whose objects
  name no member twice. In every document a scalar that was set is found again
  and can be set back (`set_back`).
- Every edit changes what it says and no more (`splice`, `append`, `insert`,
  `changes`); an appended block gets its comma exactly where one is due
  (`last_token`).
- The edits of one plan do not get in each other's way (`together`), and after an
  update the document says what was answered, what was taken out is gone, and
  the rest is what it was (`answered`, `updated`).
- A run without questions over a file that an earlier run made succeeds, leaves
  it to the letter as it is, says so and asks nothing (`headless`, `unchanged`,
  `finish`). Left out are files without hosts or boards, and ports that are read
  as zero, such as `00`, which count as missing.
- A board takes no answer to a key that is not its own, an answer that means
  "inherit" changes nothing, and zero means that for the same keys wherever it is
  answered (`merge`).
- The advanced questions change the advanced answers alone, the keys of one board
  stay with it (`independent`), and a name that is taken gives way with a notice
  (`told`).
- An earlier boot has the older archive (`archive_order`).

What an update reads back leaves these out: a text that goes above the boards of
a host where the boards do not begin their line when its turn comes; a value that
is taken out and shares its line; a relay value that is taken out and stands
under another name than its own; a section that is `null`; a key that is answered
twice or that a board does not have.

A configuration is never rewritten as a whole. Edits are made in its text, one
value or block at a time, and each leaves a text that can still be read.
