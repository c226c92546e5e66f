# llm_chat

A terminal chat client for OpenAI-compatible chat-completion servers,
written as a library whose behaviour is specified and proved with Verus,
and a thin program around it.

- `src/` — the verified library:
  - `app.rs`: the application state: editing the input line by grapheme
    cluster, submitting a line, taking in a streamed reply, reacting to
    terminal events;
  - `llm/client.rs`: decoding the server-sent events of a streamed reply,
    the end markers of the stream, and picking the text out of each chunk;
  - `ui/wrap.rs`: wrapping message text into bubble lines;
  - `ui/chat_view.rs`: sizing the bubbles and placing them in the
    scrolled chat view;
  - `ui/layout.rs`: splitting the screen into the sidebar, the chat view
    and the input box;
  - `ui/input.rs`: the cursor of the input box;
  - `model/`: messages, conversations and roles;
  - `clock.rs`, `text.rs`: times of day, and character-level text work;
  - `outside.rs`: the outside crates' functions the library calls, with
    the contracts it assumes of them.
- `app/` — the program: terminal setup and the event loop (crossterm),
  drawing (ratatui), and the HTTP request on its own thread (reqwest,
  tokio, serde_json).
- `tests/` — tests of the library.

Environment: `LLM_API_URL`, `LLM_API_KEY`, `LLM_MODEL`.
