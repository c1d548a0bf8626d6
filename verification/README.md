# dynamo_llm

Two pieces of an LLM serving front end, written in Verus with their
behaviour stated as contracts and proved:

- `src/sensitive.rs` decides whether an HTTP header carries a credential:
  a denylisted name (ASCII case ignored) or a value that starts, after
  leading Unicode whitespace, with `bearer `. `src/text.rs` holds the
  character-level models of the `str` operations it uses and the UTF-8
  lemmas that relate a byte prefix to the leading characters.
- `src/metrics.rs` holds the per-rank worker load metrics and the publisher
  that keeps the latest metrics of each rank in a `tokio` watch channel;
  `src/debounce.rs` holds the decisions of the task that forwards them:
  which ranks changed, when the debounce timer is armed, what a flush sends.

`app/` is the asynchronous task itself (`tokio::select!` over the channel
and the timer), which feeds its events to `PublishingLoop::step`.
