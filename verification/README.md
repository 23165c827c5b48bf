# mbes_reconstructor

Ingest pipeline for a multibeam echosounder stream.

- `src/` is the verified library (Verus): the framed datagram format
  (`protocol.rs`, with the little-endian field readers in `bytes.rs`), the
  streaming frame extractor, the bounded double buffer (`double_buffer.rs`),
  the ping span of point batches (`point_cloud.rs`, `websocket_server.rs`) and
  the receive loop's switch to the simulated stream (`udp_receiver.rs`).
  Floating-point fields of decoded frames are carried as their IEEE-754 bits.
- `app/` is the program around it: UDP and WebSocket I/O, the async tasks, the
  simulated stream, and the floating-point work (ray tracing through the
  sound-velocity profile, georeferencing, colour ramps, timestamps).
- `tests/` exercises the library on concrete inputs.
