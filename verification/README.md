# nxarchive

Packing and unpacking the content archives (NCA) a Nintendo Switch homebrew title is made of, with
the logic proved in Verus.

- `src/` is the library. `crypto` holds the three AES modes and the digest, `signing` the RSA-PSS
  header signature, `keyset` the console keys, `sections` the encrypted parts of an archive,
  `hacbrewpack` what goes into a title's archives and how they are sealed, `unpack` how an archive is
  opened and verified again, and `hactool` what is reported and extracted.
- `tests/` runs the library on concrete values.
- `app/` is the command line around it: files, arguments, and the reading and laying out of
  containers with `nx_object`.

What sealing and opening promise each other is stated on `hacbrewpack::archive::finish`: decrypting
its result with the same keys gives back the header as it was signed, the body, and the key area.
The ciphers, the digest, and the signature scheme come from their crates; what is taken on trust of
each is written above the function that calls it.
