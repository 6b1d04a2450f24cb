# gateway

An HTTPS gateway in front of backend services. It signs callers in and up,
reads their session from a signed cookie, and forwards every other request
to a backend chosen by the service register, provided the caller's scope
covers the scope that the matched route requires.

- `src/` is the verified library: permission sets and scopes (`per`,
  `resource`), the service register and its round-robin routing
  (`register`), session and login cookie values (`authako`, `loger`), the
  decisions of the middleware and the login and sign-up forms (`preserver`,
  `forms`, `seission`, `join`), and the error answers (`lgerror`, `error`).
- `app/` is the server around it: settings, TLS, the database, the actix-web
  middleware and handlers that perform what the library decides.
- `tests/` exercises the library on concrete values.
