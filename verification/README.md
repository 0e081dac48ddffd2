# snowflake_proxy

A Snowflake proxy: it polls a broker for client offers, answers them over
WebRTC and relays the clients' traffic to a Snowflake relay.

- `src/` is the verified library (Verus): IP and socket address texts
  (`net`, read; `display`, written), text splitting and line handling (`text`), local-address
  filtering of SDP answers and session ids (`util`), broker requests and
  reply handling (`broker`, `messages`), the decisions on a poll reply
  (`session`), the client count (`tokens`), the NAT type (`nat_type`), and
  the pluggable-transport server setup (`pt`, `snowflake`).
- `app/` is the program around it: command line, HTTP, WebRTC, WebSocket
  relaying, TCP, environment and printing.
- `tests/` runs the library on concrete inputs.
