# taproot_descriptor

Taproot output descriptors for Elements, written and verified in Verus.

A descriptor `eltr(KEY)` or `eltr(KEY,TREE)` names an internal key and, perhaps, a tree of scripts.
The library

- reads descriptors from text and writes them, with or without their checksum (`descriptor::parse`,
  `descriptor::read`, `descriptor::display`, `descriptor::checksum`),
- walks over the scripts of a tree in depth-first order (`descriptor::tap_tree`),
- derives the output key, the script pubkey, the address and the control blocks
  (`descriptor::tr`),
- makes the witness of minimum weight that spends from a descriptor, and bounds the weight of all
  of them (`descriptor::spend`, `descriptor::weight`),
- lifts a descriptor to the policy that it implements (`descriptor::lift`, `policy`,
  `normal_form`),
- translates keys and extensions, and asks a question of every key (`descriptor::translate`,
  `descriptor::for_each`),
- compares trees and descriptors, and gives what is hashed of them (`descriptor::compare`,
  `descriptor::hash`, `order`).

Keys and scripts come from the user of the library: a key is anything with the trait
`MiniscriptKey`, a script is a `Miniscript` record, and functions that read text take a reader for
each of them. Hashing and curve arithmetic are those of the `elements` crate; what is relied on of
it stands in `taproot`.

What holds of all descriptors is stated by the public proof functions whose names begin with
`law_`.

`app/` wraps descriptors in types with the traits of the standard library for printing, hashing,
sorting and iteration.
