# pds_client

A Bluesky / AT Protocol client whose logic is a library verified with Verus.

- `src/` — the verified library:
  - `strings` — character-level helpers (trimming, searching, decimal notation) with their
    specifications;
  - `identifiers` — DIDs and handles as `atrium_api` validates them, and the ordered `UserDid`;
  - `xrpc` — XRPC URLs, form-urlencoded query strings, the admin and public agents;
  - `agent` — authorization headers, request routing through the chat proxy, when an access
    token has expired, and the decision of what a session refresh answer means;
  - `records` — record keys of AT URIs, post URIs, the root of a reply thread, and which
    replies a thread shows;
  - `accounts` — which stored sessions are usable and the ordered choice of accounts;
  - `pages` — what the pages decide: forms, enabled buttons, conversation lines, labels;
  - `pds_store` — the PDS domains and admin passwords kept on the device;
  - `routes` — the app's pages and their paths, written and read back;
  - `text` — the interface texts per language.
- `tests/` — tests of the library on concrete values.
- `app/` — a command-line client around the library: HTTP, session files, printing.
