# fullframe

The verified core of FullFrame, a screenshot and screen-recording tool.

- `src/` is the library, proved with Verus:
  - `bytes`, `mp4_format`, `mp4_boxes`, `mp4_muxer`: a plain MP4 muxer for
    H.264 video, with the byte layout of every box written as a spec;
    `mp4_laws` proves what a reader of the file can rely on (the three
    top-level boxes, `stco` pointing at the `mdat` payload, AVCC framing
    that splits back into the NAL units, exact `stts` and `stss` tables).
  - `encoder`, `encoder_cpu`: NAL unit handling, SPS/PPS tracking and the
    encoder settings; OpenH264 does the encoding.
  - `pipeline`: turning encoded packets into MP4 samples.
  - `frame`: RGBA frames, cropping, BGRA conversion and the desktop
    bounds of several monitors.
  - `snapshot`: PNG and `data:` URL handling with the image and base64
    crates.
  - `recording`: the one-recording-at-a-time state of the recorder.
  - `temp_files`: recordings are moved or deleted only from under the
    temporary directory, with `.` and `..` resolved before paths are
    compared by components.
  - `window_list`: which window titles the window picker lists.
- `app/` is the Tauri application around it: windows, hotkeys, screen
  capture, threads and files.
- `tests/` runs the library on concrete inputs.
