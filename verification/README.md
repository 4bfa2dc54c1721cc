# nemotron_mlx

A streaming speech-recognition runtime for
`nvidia/nemotron-3.5-asr-streaming-0.6b` on Apple MLX, whose control logic is
verified with Verus.

- `src/` is the verified library: the published checkpoint layout and its
  validation, the cache-aware streaming window scheduler, the causal
  convolution and attention caches, tensor reorderings and masks, greedy RNNT
  search, speaker/ASR fusion, the decode-only tokenizer, the host protocol
  session state machine, the wake-word latch and the Traditional Chinese
  conversion. Every public function states its result in `ensures`; the
  `lemma_*` proof functions state laws that span calls (streamed audio cut
  into windows as one block would be, cache updates composing, fusion keeping
  every token, greedy search bounded per frame, anti-flicker settling).
- `tests/` runs the library on concrete values.
- `app/` is the program around it: WAV and artifact I/O, MLX kernels and
  floating-point arithmetic, the log-mel frontend, the stdio host loop and
  keyword spotting with sherpa-onnx.
