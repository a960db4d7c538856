# dnsd

A caching DNS resolver and forwarder. It answers over UDP, TCP, DNS over TLS and DNS over
HTTPS; forwards chosen domains, directly or through Tor; resolves the rest from the root
down; validates with DNSSEC; makes IPv6 addresses for IPv4-only names (DNS64); and keeps its
trust anchors current (RFC 5011).

## Layout

- `src/` is the library: everything that is decided or computed, in Verus, with a contract on
  each function. What several functions promise together stands in proof functions whose
  names begin with `law_`.
- `app/` is the daemon around it: sockets, files, signals, TLS, the configuration file and
  the control socket. It asks the library what to do next and does it.
- `tests/` runs the library on concrete values.

## How the library is put together

- `name`, `wire`, `codec`, `rdata`, `order`: names, records, messages and their wire form.
  Compression and the record grammars are `hickory_proto`'s; what crosses the boundary is the
  uncompressed form.
- `net`, `net_text`, `bytes`, `text`, `calendar`: addresses, numbers and text.
- `config`, `tls`, `listeners`, `control`, `doh`, `handler`, `metrics`, `worker`, `acl`: what
  the daemon is told, and what its sockets do.
- `recursor`: the resolver. `pipeline` is the way of one query; `start`, `walk` and
  `iterative` go from the closest known zone down; `dnssec`, `chain`, `denial`, `crypto` validate; `trust`, `anchor`,
  `anchor_file`, `refresh` keep the anchors; `cache`, `timed` remember; `forwarder`,
  `dot_pool`, `socks`, `framing`, `zeroxtwenty`, `cookies` talk to other servers; `dns64`,
  `ipv4only`, `ddr`, `local_zones` answer special names.

Times are parameters: milliseconds for caches and pools, seconds for anchors and signatures.

## What is not proved

Functions marked `#[verifier::external_body]` call into an outside crate or the standard
library. The comment of each says what it calls, and what is taken on trust.
