# tiny player

A small media player. What it decides and computes is a library in Verus, proved against its
contracts; what talks to files, devices and the network stands around it.

- `src/` is the library: choosing streams and decoders, the steps of demuxing and decoding, keeping
  sound and pictures in step, the planes and matrices of a picture, playlists, subtitles, packing
  sound for a speech server, and the beam search of a speech model.
- `tests/` runs the library on concrete values.
- `app/` is the program: the window, the tasks, and the calls into ffmpeg, wgpu, rodio and reqwest.
  It reads its icons, fonts and shaders from a folder `resources` beside the program.

Numbers that the player keeps in floating point stand in the library as integers: samples and
volumes as their bits, matrices in thousandths, and log probabilities as their rank among all
double precision numbers.

A few functions of other crates are called through wrappers whose contracts are believed and not
proved; the comment above each says what is claimed. They call `bytemuck`, `hound`, `image`,
`quick-m3u8`, `serde_json`, `time`, `webrtc-vad` and the standard library.
