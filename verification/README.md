# solx keep

`solx keep` renews the scratch directories that Sol, ASU's supercomputer, has flagged
for removal. It reads Sol's warning CSVs, keeps the directories that the `[keep]` rules of
the configuration name, and refreshes the timestamps of everything in them. What Sol has
not flagged is never touched.

The library in `src/` makes every decision and is verified with
[Verus](https://github.com/verus-lang/verus). The program in `app/` does the I/O: it reads
the files, walks the directories, stamps the entries, runs the threads and talks to the
user.

| Module | What it decides |
|---|---|
| `stage` | the warning stages and their CSVs |
| `flagged` | the directories that a CSV flags |
| `rules` | which directories the `[keep]` rules name |
| `plan` | what is kept and what is skipped |
| `walk`, `shard`, `touch` | a directory's entries, their batches, and what became of them |
| `renewal` | the counters, and the lines that report on them |
| `serial`, `pool`, `execution` | the order of the work, serially or on a worker pool |
| `document`, `report` | the plan and the renewal, as documents and in words |
| `session` | the command: what it prints, what it asks for, how it ends |
| `jobs` | the default number of workers |
| `text` | the strings, character by character |

Two modules hold proofs alone: `schedule` shows that the pool and the serial run come to
the same counts in whatever order the workers get their turns, and `guarantees` shows what
holds of every run of the command, such as that a dry run never renews anything.

What the library takes on trust is marked where it stands: the CSV reader of the `csv`
crate, the glob matcher of the `ignore` crate, and `str::trim`.
