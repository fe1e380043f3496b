# aes67_matrix

The logic of an AES67 desk — SAP/SDP stream discovery, RTP and PTP
monitoring, channel routing with SAP announcements, WAV recording, local
listening and NMOS (IS-04 query, IS-05 connection) control — as a library
verified with Verus.

- `src/` — the verified library. `text` and `net` hold the text and IPv4
  models, `rtp` and `pcm` the packet and sample layouts, `discovery` the SAP
  and SDP readers and the stream store, and one module per desk function
  (`routing`, `rtp_monitor`, `ptp_monitor`, `recorder`, `audio_monitor`,
  `nmos`). `clock` reads the wall clock.
- `tests/` — tests of the library on concrete values.
- `app/` — the desktop application around it: Tauri commands, sockets,
  threads, audio devices, WAV files, HTTP and DNS-SD, and the floating-point
  parts (gain, jitter, clock offset, sample scaling).
