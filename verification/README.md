# handy

The text-handling core of a dictation assistant, verified with Verus.

- `src/text_finalize.rs`: stripping trailing separator punctuation from a transcript.
- `src/input_context.rs`: keeping the tail of injected context under paragraph,
  line and character limits, after CRLF/CR normalization.
- `src/utf16.rs`: UTF-16 encoding and lossy decoding, and cutting a text at a
  UTF-16 offset (the caret position accessibility APIs report).
- `src/accessibility.rs`, `src/foreground.rs`: what is made of the focused
  field and of the foreground application, from what the platform read.
- `src/karabiner_typing.rs`: the registration protocol of the typing helper,
  as a step function, and the typing options.
- `src/whitespace.rs`, `src/text.rs`: white space, trimming, and moving text
  between strings and character sequences.

`app/` holds the platform readers (macOS Accessibility, Windows UI
Automation) and the loop that talks to the Karabiner helper; they hand plain
values to the library.
