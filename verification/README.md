# clarify_bq

Backs up a Clarify CRM workspace to BigQuery. Everything that a run computes and decides is a
library verified with Verus; requests, files and the clock are around it.

## Layout

- `src/` — the verified library.
  - `text`, `json` — texts and documents as plain values.
  - `http`, `records`, `schemas`, `envelope` — the Clarify side: addresses, retries, paging.
  - `plan`, `tables` — what a run covers, and where it goes.
  - `rows`, `spool` — what is written, line by line.
  - `fetch`, `flat`, `coverage` — the fetch: objects with their feeds, the other collections, and
    that every resource of the plan is there.
  - `orchestrate`, `backup` — a backup as a machine: what it does next, and where each answer leads.
  - `admin`, `load`, `secret` — the Google side: tables, load jobs, queries, the key.
  - `runs`, `clock`, `views` — the ledger of runs, times, and the views of the latest snapshot.
  - `commands`, `cli`, `config`, `error` — the other commands and what surrounds them.
- `tests/` — the library from outside.
- `app/` — the program: arguments, HTTP, disk and the loop around the machine.

## Reading the contracts

Contracts speak of texts as sequences of characters and of documents as `JsonView`. The functions
whose names begin with `law_` state what holds across functions: that a load only appends, that a
dry run writes nothing, that a run called complete covers its plan, that every record is accounted
for, that a row reads back as it was written.
