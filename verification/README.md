# shush vault core

An encrypted local vault for API keys and other secrets, written in Verus:
the functions carry `requires`/`ensures` contracts that Verus proves.

- `src/record.rs`: secret records and the vault (add, lookup, update, soft
  delete, edit and removal by id), with laws about lookups after each change.
- `src/envelope.rs`: the on-disk envelope (PBKDF2-SHA256, AES-256-GCM, base64
  fields); sealing and opening are specified over named results of the
  cryptographic calls, and what is sealed opens again to the same plaintext.
- `src/encoding.rs`: standard padded base64 as a specification, with a proof
  that encoding is injective.
- `src/dotenv.rs`: `.env` lines, previews, parsing, quoting and export, with a
  proof that an export reads back to the same names and values.
- `src/import.rs`: importing `.env` entries with skip, overwrite or rename on
  conflict, including the pigeonhole argument that a free `_copy` name exists.
- `src/filter.rs`, `src/present.rs`: list filters, masking, colours, messages
  and the listing table.
- `src/session.rs`: the desktop app's decisions: unlocking and locking,
  the environment filter, and the pasted `.env` import with its refusals and
  when to save.
- `src/text.rs`: trimming, ASCII case folding, substring search and decimal
  rendering over `Seq<char>`.
- `app/main.rs`: the `shush` command line (argument parsing, files, prompts,
  clipboard, JSON), built on the library.

The Linux desktop shell (GTK windows and dialogs) is not part of this crate,
which does not depend on the GTK bindings. What
that shell decides (filters, messages, masking, the lock screen and the import
dialog) is in the library, in `src/filter.rs`, `src/present.rs` and
`src/session.rs`; only the widgets are missing.
