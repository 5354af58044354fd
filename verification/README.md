# vefem

Vefem calculates the displacements, support reactions and internal forces of beam elements in
2D space with the finite element method.

The crate is written in Verus. `src/` is the verified library: the rules that decide where the
values of the calculation go and which values are combined, each with a contract that Verus
proves.

- `structure` — element releases, support locks, the release count of a model and the splitting
  of model elements into calculation elements.
- `fem` — the rows of the unknown displacements, the rows of the equivalent load vector and the
  placement of the element stiffness matrices into the joined stiffness matrix of the structure
  (with the release rows of each element).
- `loads` — element number lists (`1,3..6,8`, `-1` for every element), which loads a load
  combination includes and with which factor, and the plan of the calculation load combinations
  (the permanent loads alone, then one combination led by each live load group).
- `reinforcement` — rebar distribution strings (`30 5*60 30`).
- `material`, `profile`, `results` — the standard concrete classes and the enums of the model.

`app/` holds what runs around the library: the model types with their serde forms, the floating
point calculation (stiffness matrices, equivalent loads, the solution of the system of
equations, internal forces and deflections), printing and the C interface. It calls the library
for every decision listed above.

`tests/` exercises the library on concrete values.
