# powerio-dist

Readers and writers for distribution network exchange formats, in Verus.

- `src/cim`: distribution CIM (CIM100 RDF/XML), read and written.
- `src/ravens`: MG-RAVENS JSON, read and written.
- `src/dgs`: DIgSILENT PowerFactory DGS ASCII exports, read only.
- `src/model.rs`: the multiconductor network they meet in. A terminal is a
  conductor of a bus; impedances are matrices over conductors.
- `src/web.rs`: what a web page asks of the converter.

Beside the contracts of the readers and writers, public proof functions state
what holds of them together:

- A CIM document that was written holds every element of the network at a bus, in
  order and by name (`cim::present`), where identifiers are distinct and names can
  stand in one. It reads back as the network it was written of
  (`cim::round_trip`), and writing that network gives the same text, letter for
  letter (`cim::stable`), where moreover the line codes of its lines are defined,
  lengths are positive, terminal maps are in the order of the phases, and units
  lead back to the numbers they came from.
- A network that a CIM document is written of without a warning holds nothing that
  the document has no slot for (`cim::losses`), and what is read of the document
  holds its terminals, groundings, powers and angles (`cim::whole`).
- An MG-RAVENS document that was written is accepted (`ravens::accept`), its text
  is read as the document (`ravens::legible`), and no bus, line code, line, switch,
  load, shunt, generator, inverter, source or transformer is lost on the way, with
  what comes back of each (`ravens::survive` and its neighbours). Objects that have
  no typed mapping go back to their places, or their loss is reported
  (`ravens::laws`). Writing what is read of a text gives the same text, letter for
  letter (`ravens::second`, and the contract of `write_ravens_json`), where elements
  have names of their own and are at buses of the network, units lead back to the
  numbers they came from, and limit sets, load shapes and objects without a typed
  mapping are found again where they were put. The numeral of a number is the one
  that `serde_json` prints, whatever its size.
- The bases of the buses of an MG-RAVENS network do not depend on the order of its
  elements (`ravens::bases`).
- The two forms in which a DGS export carries a matrix give the same matrix
  (`dgs::matrix`).
- A network read from a DGS export has buses, elements and line codes with names
  of their own, every element sits on terminals of its buses, and every line has a
  line code of the network (`dgs::laws`).

A quantity is the bit pattern of an IEEE 754 double. Arithmetic is handed to the
readers and writers as functions (`math::Math`), and each contract says which
operations are applied to which operands, in which order. `app/` supplies `f64`,
files, and the page's bindings.
