# inference_engine

The verified core of an inference engine for quantised models, with the engine around it.

`src/` is a library in which every function is verified:

- `distributed/`: the wire format between a coordinator and its workers, the placement of experts
  on nodes, the handshake, the routing of experts, and what a worker computes ahead.
- `multimodal/`: the expansion of media in prompts, the tensors that the media encoders need, and
  the sizes, layouts and orders of their computations.
- `audio/`: wave files, samples, resampling schedules and feature windows.
- `speaker/`: the policy and the tensors of speaker models.
- `tensors`, `gguf`: descriptions of stored tensors and the rules that loaders put to them.
- `positions`, `attention`, `prefill`, `recurrent`, `tokenizer`, `profiling`: plans and state of
  the language model.
- `bits`, `bytes`, `text`, `values`, `tables`, `parallel`: numbers as bit patterns, bytes,
  messages, and rows that are filled in parallel.

Floating-point numbers stand in the library as their bit patterns, or as values of any type where
they are only moved.

`app/` holds what is not verified: sockets, files, the clock, and floating-point arithmetic.
`tests/` runs the library on examples.

Two functions of rayon and one of the standard library are trusted; each stands behind a function
whose comment says what is assumed of it.
