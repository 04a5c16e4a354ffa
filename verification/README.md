# pop_mail_server

A POP3 mail server whose decisions are proved with Verus.

- `src/` is the verified library: the POP3 command parser and response
  formatter, the session's decisions (what each command answers, which
  outside work it needs, the per-session command rate limit, what QUIT
  deletes), the user store and the domain router with their lookup laws, the
  management API's request handling, maildir naming and listing, S3 object
  naming, IMAP forwarding, which webhook events a user receives and the
  retry schedule, configuration defaults and validation, and the `pop3ctl`
  requests and tables. Calls into argon2, md5, reqwest and std that the
  logic needs stand behind small trusted wrappers whose contracts say what
  the called code does.
- `app/` is the program around it: sockets and TLS, files, the axum API
  server, the notify watchers, IMAP connections, webhook posting, TOML and
  JSON forms of the values, and the `pop3ctl` command line (the same binary,
  started under that name).
- `tests/` runs the library on concrete values.
