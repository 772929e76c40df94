# resist

A circuit simulator (Modified Nodal Analysis engine, visual schematic
editor, and the ResistScript language), whose integer and text logic is
written in Verus and proved against its contracts.

* `src/` — the verified library:
  * `nodes` — node ids and the numbering of nodes and branch equations;
  * `dsu` — union-find with union by rank and path compression;
  * `layout` — from blocks and wires to circuit nodes;
  * `editor`, `sim_state`, `schematic` — the editor's model: ids of new
    blocks, wiring clicks, removal of wires, pin geometry on the grid;
  * `ast`, `parser`, `interp`, `eval_api`, `text` — the script language's
    tags, keyword and operator tables, node and component naming, layout
    updates, error text, decimal numerals;
  * `script_tree` — from the grammar's parse tree to statements and
    expressions (operator chains folded to the left, method chains, named
    arguments, phasors, dynamic names);
  * `source_expr` — the time functions of functional sources (numbers with
    SI letters, `t`, `pi`, arithmetic, functions, comparisons, `c ? a : b`
    and `if c then a else b`);
  * `lexical` — trimming and the float syntax that both readers share.
* `app/` — the program around it: the floating-point simulation engine,
  the egui editor, pest's grammar (whose parse tree it hands to the
  library node for node), the evaluation of script and source expressions
  in floating point, and `main` (a script path runs the script; no argument opens
  the editor).
* `tests/` — tests of the library.
