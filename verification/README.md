# chatbox

A desktop chat client for the OpenAI and Azure OpenAI chat completion services, with
sessions, archives, a SOCKS5 proxy, text to speech and voice input.

The logic of the client is a library whose functions carry contracts proved by Verus:

- `src/text.rs`: the character and string functions the rest is stated over
  (trimming, lines, searching, decimal numbers).
- `src/render.rs`: how a message is split into plain text, list items and code blocks.
- `src/chat.rs`: the chat items of a session, the marks that stop a reply, the text
  cached for sessions that are not on screen, and how a streamed reply is taken in.
- `src/session.rs`: sessions and archives: saving and restoring them, their order,
  the session actions, shortcut instructions and switching sessions.
- `src/openai.rs`: the request messages, the choice of model, and the reading of the
  streamed reply.
- `src/audio.rs`: the speech requests, splitting text by language for synthesis, and
  recording.
- `src/config.rs`: the settings, the proxy, and the interface texts in two languages.
- `src/base.rs`: the text helpers of the chat view.

`app/` is the program around the library: the window and its callbacks, the
database, HTTP, audio devices and the configuration file. `tests/` runs the library
on concrete values.
