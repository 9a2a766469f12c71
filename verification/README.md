# spdm_lite_responder

Verified decision logic of an SPDM responder that serves large responses with
CHUNK_GET and shares one certificate store between its MCTP and DOE tasks.

- `src/wire.rs`: sizes and codes of the CHUNK_GET / CHUNK_RESPONSE layout,
  little-endian field helpers.
- `src/chunk_get.rs`: the checks on a CHUNK_GET request, the chunk that answers
  it, the CHUNK_RESPONSE prefix bytes and their placement in the response buffer, the bounds check before a chunk is read,
  the progress of a large response, and the laws that tie these together
  (contiguous chunks, no overrun, completion, message within the data
  transfer size).
- `src/transfer.rs`: a whole run of CHUNK_GET rounds over one large response,
  and the law of the run (rounds, sequence numbers, one last chunk, one size
  field, chunk sizes adding up, the data in order, refusal afterwards).
- `src/init_system.rs`: the responder tasks running the certificate-store
  initialisation together, with mutual exclusion and what a waiter returns.
- `src/responder.rs`: the measurement provider of a build and the steps of the
  shared certificate-store initialisation, with its laws.
- `app/`: the async tasks and the platform I/O around those decisions. It runs
  on the firmware workspace's own crates (syscalls, console, SPDM stack,
  platform layer, transports), which are not available as outside crates.
