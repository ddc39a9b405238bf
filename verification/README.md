# b_codegen

Code generation of GNU assembler text for the ARM Cortex-M3 (Thumb-2, bare
metal) from the intermediate representation of a B compiler.

- `src/ir.rs`: the intermediate representation (operands, operations,
  functions) and frame alignment.
- `src/text.rs`: decimal rendering of integers.
- `src/codegen/gas_arm_m3_none.rs`: the emitters. Each states, over `Seq<char>`
  spec functions, exactly the text it appends; the functions that translate a
  whole function or translation unit also state when a construct cannot be
  translated (too many parameters or call arguments for the four argument
  registers), in which case they append nothing.
- `src/codegen/properties.rs`: properties across constructs: frame slots do
  not overlap, frames hold all automatic variables, literals load as their low
  32 bits, labels are distinct, texts compose.
- `app/`: refuses malformed input and prints the diagnostics.
