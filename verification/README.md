# stream-to-agora

Push a local file or an `http(s)://`, `rtmp://` or `rtsp://` source to an
Agora RTC channel as a regular publisher. ffmpeg demuxes (encoded
passthrough) or decodes (raw) the input; this program splits its output into
frames and hands them to the Agora SDK.

## Layout

- `src/` — the verified library (Verus):
  - `parse/` — the frame splitters for ffmpeg's pipes (ADTS AAC, Ogg Opus,
    G.711, Annex-B H.264 and H.265, IVF for VP8/VP9/AV1) and the raw yuv420p
    and PCM frame sizes. Each splitter states exactly which bytes it yields,
    and that its answer does not depend on how the stream was cut into reads.
  - `agora/` — SDK error codes and messages, the decision taken on each
    connection event, the encoded/raw codec-mode decision, the SDK codec ids,
    and the connect/run decisions of a session.
  - `ffmpeg/` — the ffprobe stream model reduced to one video and one audio
    stream, and the ffmpeg command lines.
  - `cli.rs` — input classification, `--rtc-user-id`, `--http-header` and
    `--token-renew-cmd` handling.
  - `pump.rs` — what the pumps push from their buffers (H.264 access
    units, AAC frames) with their pacing, the respawn policy at end of
    stream and its failure message; the pushes of a whole stream do not
    depend on how it was cut into reads, and a respawn starts afresh.
  - `text.rs` — decimal rendering and character-sequence helpers.
- `app/` — the program around it: command line, ffprobe/ffmpeg processes,
  the Agora SDK calls (C API and the C++ encoded-sender shim), the async
  pumps, signal handling.
- `tests/` — the library's tests.
