# revolut-trading (verified core)

A Revolut X trading client for LTC/USD. The library under `src/` holds the
logic, each function with a contract proved by Verus:

- `text`: characters of strings, comparison, `trim`, decimal formatting;
- `json`: the JSON value model of the exchange's responses;
- `api`: the signed path, the signed request (URL, headers, body), status
  checks, the order body, and what is read from balance and order lists;
- `auth`: reading the Ed25519 key from a PKCS#8 PEM file and signing requests;
- `cli`: the menu choices and prompt answers;
- `state`: the bot state, its buy/sell cycle, polling and retry decisions.

`app/` is the program: terminal I/O, the HTTP client, the state file, and the
loops that carry out the library's decisions.
