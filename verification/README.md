# rhythmix

An HTTP service that turns an uploaded MP3 or WAV file into a three-lane
rhythm-game pattern. The decisions of the service are a Verus library,
verified against their contracts; the audio signal processing, which works
in floating point, and the server plumbing are ordinary Rust around it.

- `src/` — the verified library: errors and their HTTP statuses, decimal
  text, server configuration, multipart framing and boundary parsing (with
  the round-trip law of a one-file form in `form_laws.rs`), lanes and note
  collisions, pattern figures and lane choice, section planning and
  transitions, FFT window and band bookkeeping, the onset gates, routing.
- `tests/` — tests of the library.
- `app/` — the server binary: hyper/tokio plumbing, rodio decoding,
  rustfft spectra, tempo and beat tracking, which call into the library.
