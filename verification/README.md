# tpt_abyss

Dynamic-depth inference building blocks with a symbolic reasoning verifier,
written in Verus.

Instead of running transformer layers `1..=N` once each, a *layer program*
(e.g. `[1, 2, 3, 3, 4]`) says which layers run for a token and in which order,
so that hard tokens can get more compute. A chain-of-thought verifier parses a
drafted reasoning trace, checks its arithmetic and its numeric claims, and
produces a verdict with a confidence and a correction hint that drives
regeneration.

## Layout

- `src/` — the verified library:
  - `layer_program`, `router`, `telemetry`, `usage_stats`, `device_placement`:
    programs, the heuristic router, selection and usage statistics, and
    per-layer device residency;
  - `generation`: the decisions of the generation loop (what to feed, when to
    stop, which program runs, which blocks to prefetch);
  - `parser`, `arithmetic`, `logic`, `score`, `verdict`, `number`,
    `reasoning`: the trace parser and verifier over exact decimals;
  - `tensor_names`, `model_config`: which GGUF tensor holds which weight, and
    the model shape read from GGUF metadata;
  - `session`, `evaluation`: the command-line sessions' decisions and the
    offline evaluation harness;
  - `tokenizer`: a wrapper over the `tokenizers` crate.
  Fractions (confidences, router signals, usage averages) are fixed-point
  millionths, rounded down. Numbers in reasoning traces are exact decimals
  with fewer than twelve significant digits (`|mantissa| < 10^12`) and at
  most six digits after the point; a number outside that range does not
  parse, so a step that contains one is not checked as arithmetic or as a
  claim.
- `app/` — the command-line program around it: the `candle` forward pass and
  weight loading, sampling, the `redb` memory store, and the CLI.
- `tests/` — tests of the library.
