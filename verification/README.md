# framed

Send and receive data over lossy streams of bytes.

A payload travels as a frame: the payload followed by a checksum over it
(CRC-16/CDMA2000 by default), COBS-encoded so that it holds no zero byte,
then a terminating zero byte.

Layout:

* `src/` — the verified library.
  * `bytes` — encoding and decoding frames, buffer lengths, `Config` and
    `Codec` for a chosen checksum, and `FrameReader`, the state machine
    that collects a stream's bytes into frames.
  * `checksum` — the checksum algorithms.
  * `stuffing` — the calls into the `cobs` crate.
  * `plain` — frames without a checksum, and their reader.
  * `typed` — buffer lengths for serialized values of a type.
  * `error`, `test_type` — the error type and the sample types.
* `app/` — `std::io` senders and receivers, serde-typed codecs (with
  `ssmarshal`), the sample sender and the decoding tool.
* `tests/` — tests of the library.
