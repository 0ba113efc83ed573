# wirecalc

A persistent HTTP/1.1 calculator server: `GET /add?a=2&b=3` answers `5`,
with `sub`, `mul` and `div` alongside. Connections stay open, pipelined
requests are answered in order, and each request is framed exactly by its
head section and its `Content-Length`.

The library under `src/` is verified with Verus:

- `text` — characters of strings, Unicode white space and trimming, ASCII
  case folding, searching and splitting, decimal numbers.
- `http` — headers, methods, versions, statuses, requests and responses, and
  the parser that frames one request at the front of a byte buffer.
- `calc` — the operations' names, their error type and the registry that
  maps names to operations.
- `server` — the router, which decides how a request is answered, and the
  connection state, which takes requests off the received bytes in order.

`app/` holds what stays outside: the floating point arithmetic and number
formatting, sockets, threads and `main`.
