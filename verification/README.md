# claude_image_proxy

A local HTTP proxy for a coding agent that talks to the Messages API. The
bulky, mostly static text of each request (system prompt, tool
documentation and JSON schemas, large `<system-reminder>` blocks and large
tool results) is rendered into grayscale PNG images, which cost fewer input
tokens than the text; the request is then forwarded upstream and the
response passed back unchanged.

## Layout

- `src/` — the verified library (Verus):
  - `font.rs`: glyph atlas built from rasterised marks, and the glyph blit.
  - `render.rs`: text to PNG pages (blank-line collapsing,
    80-character wrap, newspaper columns within 1568 px), PNG encoding through `png`.
  - `json.rs`: the JSON model the rewrite works on.
  - `digest.rs`: SHA-256 and Base64 through `sha2` and `base64`.
  - `cache.rs`: the render cache, keyed by the SHA-256 of the text; an
    entry is reused only with an atlas that draws like the one asked for.
  - `blocks.rs`: content blocks, image blocks and the cache breakpoint.
  - `system.rs`: the system text and the billing line split off from it.
  - `tools.rs`: tool documentation moved into the rendered text.
  - `messages.rs`: the first user message, reminders and tool results.
  - `transform.rs`: the whole request rewrite and its report.
  - `info.rs`: the report of a rewrite.
  - `usage.rs`: token usage of a response (plain JSON or event stream).
  - `proxy.rs`: per-request decisions (rewrite or not, headers, method,
    savings estimate) and the window of recent requests.
  - `stats.rs`: session request counts.
- `app/` — the program around it: command line, font rasterisation with
  `ab_glyph`, JSON parsing and printing with `serde_json`, the `axum`
  server and the `reqwest` client, and the floating-point cost figures.
- `tests/` — tests of the library, with a small synthetic font.

The font is read at start-up from the file given with `--font`
(JetBrains Mono Regular by default, `assets/JetBrainsMono-Regular.ttf`).
