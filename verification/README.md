# copy_circuit

The copy circuit of a zkEVM: constraints, lookups and witness assignment for
the bytes that opcodes such as CALLDATACOPY, CODECOPY, LOG and SHA3 copy,
verified with Verus.

Every byte of a copy event takes two rows, a read row and a write row. Gates
tie the rows of an event together (places, addresses, counters, padding,
accumulation), and lookups tie each row to the read-write table, the bytecode
table and the transaction table.

## The library

- `field`: elements of the Pallas base field, computed by `pasta::Fp`.
- `expression`, `constraint_system`, `constraint_builder`: polynomials over the
  cells of a table, and the gates and lookups made of them.
- `binary_number`, `less_than`, `rlc`: the parts that the circuit is made of.
- `copy_event`, `copy_table`: the copies of a block, and their rows.
- `copy_circuit`: `CopyCircuit::configure`, with every gate and lookup stated as
  polynomials over rows (`row`).
- `region`, `assignment`: `CopyCircuit::assign_block`, as a list of assignments.
- `assigned_rows`, `completeness`: what an assigned block holds, and that it
  satisfies the gates and the lookups.
- `soundness`: what rows that satisfy the gates and lookups say of a copy.
- `prime`, `modulus_prime`, `congruence`: that the modulus is prime, which the
  soundness of bits rests on.

## Around it

`app/` puts the library's constraint system and assignments into halo2, and runs
them in halo2's mock prover. `tests/` do the same on concrete blocks.
