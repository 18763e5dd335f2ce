# egglog_prelude

Verified pieces of an e-graph prelude, written in Verus.

- `src/bignum.rs`: arbitrary-precision integers and rationals (two's-complement
  bytes), their mathematical model, and the calls into the `num` crate.
- `src/bigrat.rs`: the `BigRat` sort: every primitive (`+ - * / min max neg abs
  floor ceil round bigrat numer denom pow log sqrt cbrt < > <= >=`) with an exact
  contract (`log`, `sqrt` and `cbrt` give a result exactly where it is
  rational), the term that rebuilds a value, and the laws of the arithmetic.
- `src/query.rs`: query results, one row of values per match (an invariant
  keeps the data a whole number of rows).
- `src/literal.rs`, `src/exprs.rs`: literals and expression builders.
- `src/wiring.rs`: which function tables a rule written in Rust uses under term
  encoding with proofs.
- `src/rule_lookup.rs`: the step-by-step decisions of a table lookup made from
  such a rule.
- `app/lib.rs`: the floating-point parts (`float`, `to-f64`).
