# nifi-tls-gen

Generates the certificate material an Apache NiFi cluster needs — a CA, and
per node a PKCS#12 keystore, a JKS truststore and a `nifi.properties` with
the security settings filled in — without a JVM.

## Layout

- `src/` — the library, verified with Verus:
  - `text.rs`: Unicode whitespace, trimming, splitting, ASCII upper-casing.
  - `bytes.rs`: big-endian encodings.
  - `dn.rs`: the `--dn` template parser and subject DN construction.
  - `properties.rs`: the line-level merge of the seven security settings
    into a `nifi.properties` template, with its laws (every key set, other
    lines kept in place, line count kept when all keys exist, idempotence).
  - `jks.rs`: the JKS truststore writer (`writeUTF` encoding, layout, keyed
    SHA-1 integrity hash).
  - `cert.rs`: CA and node certificate profiles, signing with `rcgen`.
  - `keys.rs`, `pkcs12.rs`, `ca.rs`, `clock.rs`: key pairs, keystores, the
    CA, and the clock, through the outside crates.
  - `node.rs`: which hosts to issue for, when to skip, and one node's files.
- `app/main.rs` — the command line: arguments, files, messages.
- `tests/` — tests of the library.

## CLI

```
nifi-tls-gen --hostnames <h1,h2,...> --dn "<DN template>" --ca-name <CA CN> \
  --out-dir <dir> --keystore-password <password> --base-properties <template> [--force]
```
