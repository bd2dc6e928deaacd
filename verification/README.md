# chronicle-worker

The Chronicle worker turns captured audio chunks into structured transcripts. It
follows the data-api's event bus, pulls the per-speaker PCM audio, feeds it to
the transcription pipeline, and posts the resulting segments, beats and scenes
back to the data-api.

## Layout

- `src/` is the worker's decision logic, verified with Verus. It performs no
  I/O: it says what is to be requested, and takes in what came back.
  - `ids`, `text`, `time`, `error`, `config` hold the basic types.
  - `decode` downmixes stereo PCM; `lanes` brings chunks into order.
  - `collector` gathers a session's audio; `outputs` batches what is posted;
    `posting` posts what comes out of a stream; `job` is the course of one
    session from its claim to its last mark.
  - `session_runner` runs one session, streaming or in one go.
  - `api_client` describes the requests to the data-api and reads the replies.
  - `retry` is the queue of failed sessions; `ws` keeps the link to the event
    bus; `event_loop`, `admin` and `worker` decide what is run when.
  - `pipeline`, `operators` and `whisper` hold what goes into the pipeline and
    what comes out of it.
- `tests/` exercises the library from outside.
- `app/` is the program around the library: settings, HTTP, WebSocket, timers,
  and the calls into `chronicle-pipeline`, which is expected side by side with
  this project.

## Environment

| Variable | Purpose |
|---|---|
| `DATA_API_URL` | Base URL of the data-api (default `http://localhost:8001`) |
| `SHARED_SECRET`, `DATA_API_SHARED_SECRET` | Secret shared with the data-api |
| `WHISPER_URL`, `WHISPER_MODEL` | Whisper service |
| `VAD_MODEL_PATH` | Silero VAD model |
| `SCENE_LLM_URL`, `LLM_URL`, `SCENE_LLM_MODEL` | Optional language model |
| `GM_SPEAKER_ID` | Pseudonym of the game master |
| `POLL_INTERVAL_SECS` | Seconds between two reconciliations (default 10) |
| `RETRY_BACKOFF_MS` | Retry delays (default `30000,120000,600000`) |
| `WORKER_ADMIN_ENABLED`, `ADMIN_BIND_ADDR` | Admin surface |
| `RUST_LOG`, `LOG_LEVEL` | Tracing filter |
