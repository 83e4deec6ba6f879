# corsaconnect

The verified core of CorsaConnect, which turns a phone into a steering wheel
and live dashboard for racing games, and a webcam into a TrackIR-style head
tracker.

- `src/` is the library, proved with Verus: the phone's input and telemetry
  packets, the OutGauge and MotionSim packets the games send, the TrackIR
  data frame with its checksum and obfuscation, the FreeTrack handshake,
  the vJoy device layout and reports, the Xbox pad report, the launcher's
  settings file and PicoPanel's settings flag, the head tracker's exposure
  and face-tracking state, and the choice of camera mode.
- `tests/` runs the library on concrete values.
- `app/` is the Windows program around it: the egui launcher, the UDP
  sockets and threads, the vJoy / ViGEmBus / DirectShow / shared-memory
  drivers, the camera, and the floating-point parts (pose solving, neural
  nets, filters, slip and impact estimation).
