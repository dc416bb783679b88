# i-wzu-auth

A headless client for the Srun campus-network portal of Wenzhou University.

- `src/` is the verified library: the word packing, the portal's XXTEA variant and
  Base64 alphabet, the HMAC-MD5 and SHA-1 helpers (over the `hmac`, `md-5`, `sha1`
  and `hex` crates), JSONP unwrapping, and the construction of every request the
  portal expects (`api.rs`), with the laws that tie them together (round trips of
  the packing, decryption of the XXTEA variant, decoding of the Base64, recovery of
  the login information from the `info` parameter).
- `app/` is the command-line program: argument handling, terminal output, the
  configuration file and the HTTP exchanges.
- `tests/` runs the library on concrete values.
