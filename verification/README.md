# dssp_bot

Coordinator for logging trainee training records through a portal worker.
The decisions live in a Verus-verified library; a thin command-line program
carries them out.

## Layout

- `src/` — the verified library.
  - `state.rs` — the automation state machine and its transition table.
  - `queue.rs` — the FIFO task queue a batch runs from.
  - `protocol.rs` — the worker's messages, the handshake and the `job_id` echo.
  - `decision.rs` — the retry/stop policy: what a submission reply means, and
    the backoff between attempts.
  - `report.rs` — results and the counts a report is built from.
  - `checkpoint.rs` — the durable batch record and what it can testify to.
  - `engine.rs` — the batch engine as a step machine: it says what to do next
    (send, write a checkpoint, wait) and is told what came of it.
  - `recovery.rs` — the start gate that reads a predecessor's checkpoint.
  - `job.rs` — the job file's plan, and pinning a batch to the portal's list.
  - `store.rs` — what a stored file yields, and whether its raw text records a
    trainee in flight at all.
  - `text.rs` — small text helpers.
- `app/` — the program: job-file and checkpoint I/O, the worker process, the
  clock, sleeping, and printing.
- `tests/` — tests of the library on concrete values.

The engine never performs I/O itself. Its central promises are stated in the
`ensures` of `BatchEngine::advance`: every checkpoint it asks for places each
trainee in exactly one group, a submission is only sent once the record naming
it in flight has been accepted, and no trainee is sent twice in one run.
