# prompt_cache

Prompt cache accounting and multimodal input normalisation for an Anthropic style messages API,
verified with Verus.

A messages request is flattened into blocks: tools, system prompt, messages. Where a
`cache_control` asks for it, or where the default policy finds a long and stable prefix, the prompt up
to a block gets a breakpoint with a SHA-256 fingerprint. A tracker remembers for each account which
fingerprints were seen and until when, and reports how many input tokens would be written to the cache
and how many read from it. Apart from that, images and documents in a request are normalised: images
behind URLs become base64 sources, documents become text.

## Layout

- `src/json.rs`, `src/assoc.rs`, `src/stable_json.rs`: JSON values and their canonical rendering.
- `src/types.rs`: the parts of a request that are read.
- `src/tokens.rs`: token counting, by a function that the caller hands in.
- `src/cache_policy.rs`, `src/ttl.rs`: what is cached by default, and how long entries live.
- `src/blocks.rs`, `src/profile.rs`: the blocks of a request, its breakpoints and fingerprints.
- `src/table.rs`, `src/tracker.rs`: the tracker. Time is handed in as a `Moment`; the free functions
  `compute` and `update` read the clock.
- `src/usage.rs`: the split of written tokens by life, and the usage report.
- `src/media.rs`, `src/multimodal.rs`: data URLs, the checks of downloads, and the normalisation. A run
  stops where a download or the text of a PDF file is needed, and goes on with what came of it.
- `src/*_laws.rs`: what holds of these together, as proof functions; `src/json_cut.rs` holds what the
  laws of the rendering need.
- `app/`: the tracker of the process, `serde_json`, HTTP and PDF files.

## What is trusted

Calls into other crates and into parts of the standard library stand behind small functions whose
contracts are believed: `serde_json` for string literals, `sha2`, `hex`, `base64`, `mime_guess`, the URL
parser of `reqwest`, `str::to_lowercase`, `String::from_utf8`, `String::push` and `Instant`. Their doc
comments say what is claimed.
