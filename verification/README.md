# qr_video_extractor

Recovers files that were transmitted as a sequence of QR codes and recorded
on video. The video is cut into chunks, the QR payloads of every chunk are
read in parallel and stored as JSONL, and the files are rebuilt from the
payloads: a metadata payload (`M:...`) announces a file, data payloads
(`D:...`) carry its chunks, directly or XORed together (fountain coding).

## Layout

- `src/` — the library, verified with Verus:
  - `decode_qr_files` — payload parsing and the fountain decoder (peeling of
    XOR packets, checksum-verified assembly);
  - `file_reconstruction` — routing of payloads to numbered files and their
    reconstruction with MD5/SHA-1/SHA-256/CRC-32 checksums;
  - `qr_extraction` — QR detection on a frame's pixels (rqrr, with quircs
    as fallback), payload records and their stable ordering by frame;
  - `resume_state`, `resume_controller`, `completion_detector` — the record
    of a run and the decision where an interrupted run resumes;
  - `events`, `tui` — the processing events, the console lines they give,
    and the state the terminal interface shows;
  - `error_handler`, `settings` — error contexts and machine defaults;
  - `text`, `keyed`, `codec` — text handling, named-entry lists, and the
    calls into the decoding and digest crates.
- `app/` — the programs: command line, file and terminal I/O, FFmpeg,
  image files, parallelism, and the floating-point displays.
- `tests/` — tests of the library on concrete values.
