# AI Allowance

What AI providers report of usage, spend and allowances, made into the cards of
a desktop dashboard: GitHub Copilot, Anthropic and OpenAI.

The library under `src/` is verified with Verus. It decides what to ask of a
provider, reads the answers, and works out the figures that are shown. The
application under `app/` does the rest: it opens the windows, sends the requests,
runs the GitHub CLI, and keeps the database and the credential vault.

| Module | What it holds |
|---|---|
| `natural`, `rounding`, `amount` | Doubles held as their bits, with exact contracts for rounding, sums, differences and hundredths |
| `decimal` | Numerals in texts |
| `text`, `clock` | Texts, points in time, months |
| `json`, `counts` | JSON documents, the amounts found in them, and where their sums are exact |
| `models` | Accounts, snapshots, candidates |
| `providers` | What the reports of the providers say of an account |
| `refresh` | The steps of a refresh, from event to event |
| `local` | Accounts that this machine is already logged in to |
| `storage` | Statements for the database, and what is shown of its rows |
| `tray` | The tray menu and the windows |

`f64::to_bits` and `f64::from_bits` convert between amounts and doubles.

Some messages speak of Anthropic's consumer product by its name, and its command
is looked for on this machine. The library takes the name from its caller. The
application reads it, with the command, from `anthropic-product.json` in its
configuration directory: an object with the members `name` and `command`.
