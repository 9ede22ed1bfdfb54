# kan_tts

Text to speech with VITS voices, with the logic verified by Verus.

`src/` is the verified library.

- `tensor` holds tensor expressions: shapes, element types, operations, the rules for the type of
  every operation, where the elements of an expression come from, what an expression means, and
  the steps in which it is evaluated.
- `nn` holds the layers and the checkpoint that their weights come from.
- `model` holds the parts of a voice and the voice itself. Every `forward` builds the expression
  that its contract names, and fails exactly where that expression has no type. The modules
  `alignment`, `attention_laws`, `inverse`, `lengths`, `lines_laws`, `no_mask`, `positions`,
  `shapes`, `spline_laws` and `unused` hold what is proved of the whole; `alike`, `numbers`,
  `rational` and `curve` hold what these proofs share: what depends on the values of its inputs
  alone, tensors of real numbers, and the mathematics of splines.
- `tokenizer`, `config` and `json` read the files of a voice and turn text into identifiers.
- `wav`, `download` and `cli` hold the sound file, the plan of a download and the choices of the
  command line.

Expressions are built by the library and evaluated by `app/backend.rs` with candle: floating-point
arithmetic is the one thing that the library says nothing about. A voice runs in two steps, since
the number of frames is itself computed: `VitsModel::forward` gives the durations, and
`VitsModel::complete` gives the sound for their values.

`app/` is the program: files, the network, the command line and the evaluation of expressions.
`tests/` runs the library, and evaluates its expressions on small voices.
