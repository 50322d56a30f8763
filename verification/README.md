# someip

SOME/IP (Scalable service-Oriented MiddlewarE over IP) in Rust, with its
behaviour stated in contracts and proved by Verus.

- `src/` is the library, verified:
  - `types`, `parser`, `serializer`, `bytes`, `builder`, `error`: the
    messages of the protocol (headers, RPC and service discovery payloads),
    read from and written to bytes;
  - `som*`: the SOME/IP payload type system (primitives, enumerations,
    strings, arrays, structures, unions, optionals), their wire encoding
    and their text;
  - `fibex`, `fibex_xml`, `fibex_parser`, `fibex2som`: the FIBEX service
    model, read from its XML, and the payload types built from it;
    `fibex_view` gives the model's mathematical values and `fibex_grammar`
    the model that a sequence of events describes. `xml_source` names what
    `quick_xml` replies to each call as a function of the document's bytes
    and the calls made before; the reader is proved to give the events that
    those replies describe, and the parser to give the model that those
    events describe, packed (`document_parsed`);
  - `laws`, `laws_message`, `laws_som`, `laws_strings`, `laws_wrapper`:
    what reading gives back of what writing wrote (headers, messages,
    primitive values, enumerations, arrays, strings, and structures,
    unions and arrays built from members that read back).
- `app/` holds what touches the world: streams, files, URLs with
  `std::net` addresses, and `Display` for errors and payload values.
- `tests/` runs the library on concrete values.
