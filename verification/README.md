# s7comm

Areas of a Siemens S7 PLC, read and written by address over S7comm. The library
in `src/` is verified with Verus; it holds what this project decides and computes,
and touches no connection. How a target splits as a URI is left to the crate
`transport`, which `app/` asks: the library takes the two parts from there.

- `item`: addresses as they are written (`DB12.DBB0.100`), their any-pointers,
  and the data items that answer or accompany them.
- `header`: the S7 PDU and the Setup Communication parameter.
- `client`: the client's side, job by job. Reads and writes longer than the PDU
  are sliced.
- `session`: the CPU's side of one session, for tests and the playground.
- `error`, `text`, `wire`: what is refused and its words, numbers as text, and
  sixteen bits on the wire.
- `laws`: what holds of the formats. What is written is read back, slices cover
  an address, jobs and answers keep to the PDU length.
- `exchange`: what holds of a client and a session together. A read brings what
  is held, a write changes that range alone, a read brings back what was written,
  and what is not there is refused.

`app/` puts both ends on an ISO transport connection (the crates `cotp` and
`transport`) and polls and delivers with them.
