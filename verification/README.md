# fnm_ai

The request-reading core of `fnm ai`: natural-language requests (English or Chinese) about
Node.js versions are turned into one of a fixed set of version-manager actions, locally where
the wording is understood and through an OpenAI-compatible provider otherwise. The library is
written in Verus; its functions carry contracts that Verus proves.

- `src/text.rs`: character-level text operations (trimming, searching, number parsing).
- `src/version.rs`: versions as users write them, parsed and displayed.
- `src/words.rs`: reading a version out of a word or out of running text.
- `src/request.rs`: a request, lowercased and split into words, and what it asks for.
- `src/intent.rs`: the actions, and the local reading of a request.
- `src/provider.rs`: the provider's configuration, URL, replies and actions.
- `src/session.rs`: answering a message: local reading first, the provider only as a fallback.
- `src/laws.rs`: properties of the whole (fixed actions, case-insensitivity, stable URLs, ...).
- `app/`: the command line, the conversation loop, the HTTP exchange and the calls of `fnm`.
