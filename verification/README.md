# discord-anti-scam-bot

The rules of a Discord bot that finds scam screenshots and acts on the accounts that post them,
written in Rust and verified with Verus.

- `src/` is the library: what an image is compared with, what counts as a flood, which links are
  looked at, how text is scored, what each server's settings mean, and what every command, button
  and detection leads to. Each function states in its contract what it returns. The laws that hold
  across functions (a post is handed out once, a server's settings stay its own, a button is read
  back as it was written, ...) are public proof functions beside what they speak of.
- `app/` is the program around it: Discord by `serenity`, SQLite by `rusqlite`, fetching by
  `reqwest`, and the `tesseract` program. It hands the library plain values and does what comes
  back.
- `tests/` runs the library, with the image, regex and URL crates behind it.

What the library takes from outside crates stands in `src/images.rs`, `src/patterns.rs`,
`src/unicode.rs` and at the head of `src/linkimage.rs` and `src/text.rs`. Those contracts are
believed, not proved; each says which function it speaks of.
