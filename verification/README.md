# KeyStash

A password manager for the terminal. Credentials live in an encrypted vault on this machine and
travel between devices through a git repository.

- `src/` is the library: records and their encryption, the vault and its master password, the
  merge of two devices' vaults, conflicts, import and export, generated passwords, the audit, and
  the logic of the screens and of the command line. Every function states what it does in its
  contract, and Verus proves it. What a vault, a merge or a sync keeps is stated by the functions
  whose names begin with `law_`.
- `app/` is the program around it: the database file, git, the clipboard, the network and the
  drawing of the screens.
- `tests/` runs the library on concrete values.

The functions that call into the cryptography, random-number and CSV crates are marked
`external_body`; each says in its comment what it relies on.

Passphrases are drawn from the word list `eff_large_wordlist.txt`, one word a line, which the
program reads from the directory of the vault.
