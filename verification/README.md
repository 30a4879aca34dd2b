# qasa_tg_notifier

A Telegram bot that polls Qasa's public GraphQL API every few hours for new
Stockholm rental listings and posts them to a chat, and that serves an
interactive `/search` filter UI. A second set of filters covers
Bostadsförmedlingen's listings feed.

## Layout

- `src/` is the verified library (Verus). It holds every decision the bot
  makes, each with a contract:
  - `config`: reading the configuration from environment variables;
  - `qasa`, `bostad`: the listing types, and the page-by-page scans that
    decide which listings are new or recent;
  - `search`, `bostad_search`: the filter state machines behind the inline
    keyboards, their texts and keyboards;
  - `telegram`: message texts, HTML escaping, the pinned state message and
    how it reads back, and the retry decision for rate-limited sends;
  - `notifier`: what a polling cycle sends and how it moves the watermark,
    how commands and button presses are answered, and what a search posts;
  - `order`, `text`: a stable sort and the character-level text utilities
    the rest is built on.
- `app/` is the program around it: environment, HTTP, JSON, the Telegram
  client, timers and the two event loops. It performs the I/O the library
  asks for and hands the results back.
- `tests/` exercises the library from outside.

Fractional quantities from the feeds (room counts, areas) are held in
tenths; timestamps are compared as Unix time in nanoseconds.
