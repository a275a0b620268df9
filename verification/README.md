# deal_survey

Characterizes bridge lesson collections: for every deal of a collection it
records what the PBN contains, a double-dummy baseline, a cash-out check and
technique probes, and it rolls those records up into a collection profile that
a text or HTML report summarizes.

The library under `src/` is verified with Verus; `app/` is the command-line
program around it (file walking, PBN reading, the double-dummy solver, JSON and
TOML files).

## Layout

| Module | What it holds |
|---|---|
| `text` | character-level string work: search, split, trim, order, decimal rendering |
| `cards` | suits, ranks, seats, hands, deals; PBN deal text; table rotation |
| `auction` | calls, auctions and the contract they reach; boards |
| `contract` | the contract grammar and the contract a board is analyzed in |
| `hash` | the rotation-independent content hash of a deal |
| `model` | the per-deal record |
| `structural` | stage 1: what a board contains |
| `cardplay` | the cash-out count of immediate top winners |
| `probe` | finesse and ruff perturbations and their verdicts |
| `scan` | stages 2–4 for one board, the per-board steps of a scan, the scan summary |
| `topics` | topic baselines and their resolution from a lesson path |
| `lessons` | lesson identity from a file path |
| `sorted_map` | counts keyed by text |
| `profile` | the collection profile rolled up from the records |
| `numfmt` | columns, percentages, one-decimal means, heat hues |
| `rank` | breakdown rows ordered hardest first |
| `report` | the text report |
| `html` | the HTML report |
| `headings` | the `<h2>` headings of the HTML page, counted |

## Commands

```
deal-survey scan <collection-dir> --out <records-dir>
deal-survey profile <records-dir> --out <profiles-dir> [--editorial e.toml] [--topics t.toml]
deal-survey report <profile-or-dir> [--html out.html]
```
