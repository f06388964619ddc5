# binform

Reading and writing values as bytes, with the byte order and the type of
length prefixes chosen at the type level: `FromBytes<E, L>` reads a value
from a `ByteReader`, `ToBytes<E, L>` appends it to a `Vec<u8>`.

The library is written in Verus. Each format is stated as a spec function
over a plain model of the value (`spec_from_bytes`, `spec_to_bytes`), and
the executable functions are proved to do what it says, errors and partial
output included. `Codec` proves that reading gives back what writing wrote,
`Canonical` that writing gives back the bytes that were read (every format
but `bool`), and `FromBytes::lemma_read_extends` that a read never looks past
the bytes it consumes.

Layout:

- `src/error.rs`: `ReadError`, `WriteError`, `IoError`.
- `src/endian.rs`: `Endian`, and the byte-order markers `BigEndian`, `LittleEndian`.
- `src/reader.rs`: `ByteReader`, the input.
- `src/ints.rs`: the byte encodings of 16-, 32- and 64-bit integers, and the
  calls into the `byteorder` crate that compute them.
- `src/codec.rs`: the traits and the helpers the formats are stated with.
- `src/primitives.rs`: integers, `bool`, `PhantomData`.
- `src/sequence.rs`: `Vec<T>` after a length prefix of type `L`.
- `src/classfile.rs`: the class-file structures (constant pool, entries, indices).
- `src/laws.rs`: laws that span several formats.
- `src/derive_plan.rs`: what a derived impl does, from a plain declaration of
  the type and its attributes: the steps in declaration order, each with its
  byte order and length prefix, the constants checked, the tag dispatch, and
  the failure of an enum without a tag type; with the law that the read and
  write plans put constants and fields at the same places.
- `app/`: the demonstration program, floating-point values, and the derives
  of `FromBytes` and `ToBytes`. These only turn the syntax tree (`syn`,
  `darling`) into a declaration for `src/derive_plan.rs` and render its plan
  with `quote`.
