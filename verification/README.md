# scanopy

The decision logic of a network-discovery service, verified with Verus.

- `src/` is the library. Each module states its behaviour in `requires`/`ensures` contracts over
  mathematical models (`Seq`, views of its types) and proves them:
  - `text`, `net`: trimming, hexadecimal and decimal text, UTF-8, IP addresses as text;
  - `lldp`: LLDP chassis and port identifiers on the SNMP wire, MAC encodings, and the lookup
    ladders that resolve an advertised identifier to a stored host or port;
  - `interfaces`, `hosts`, `controller`: interface records, the identity an interface row can be
    resolved by, the host naming ladder, and what a network controller contributes to a host;
  - `topology`, `consolidate`: how a resolution pass settles a row's neighbour, and how an
    observation merges into a stored host or one host into another;
  - `gnmi`: the gNMI collector's paths, how a notification's leaves fold into per-interface and
    per-neighbour state, and the interface rows they amount to;
  - `clock`: fresh identifiers and the current time.
- `tests/` runs the library on concrete inputs.
- `app/` holds what stays outside the proofs: JSON forms of identifiers, conversions to `uuid`
  and `chrono` values, and the asynchronous drivers that perform lookups and Subscribes.
