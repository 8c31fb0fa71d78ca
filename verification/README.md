# nlp_stack

Deterministic kernels of an NLP stack, written in Verus: every function in
`src/` carries a contract, and Verus proves the code meets it.

## What is in `src/`

- `span`: canonical UTF-8 byte spans; UTF-16 and grapheme offsets are derived
  from the byte range only.
- `stats`: byte, character, word, line and sentence counts of a text, and
  the diagnostics reported beside them.
- `distance`, `fuzzy`, `vocabulary`: thresholded optimal-string-alignment
  distance (a banded recurrence and a full-matrix one with the same contract),
  fuzzy search limits, the vocabulary of indexed chunks, and the ranked
  corrections it offers for a query term.
- `registry`, `cli`: namespacing, validation and routing of library-owned
  package surfaces, and the registry's own surface; the text-core surface
  and its operation routing.
- `corpus`, `temporal`, `senses`, `evidence`, `profiles`, `dynamics`: the
  structural parts of corpus, temporal, word-sense and conversation analysis —
  input checks, window counts and change classification, sense and concept
  evidence (with key-term candidates and concept labels), speaker and author profiles, concept introductions, adoptions,
  handoffs and recurrences.
- `units`, `contexts`, `report`: the sentence, paragraph, document and
  speaker-turn units of a source and how they nest, the contexts of a
  word-sense target, and the checks made before and while a semantic report
  is built.
- `components`, `timeline`, `pairs`: concepts as linked components of the
  primary units and their names, each unit's concept and each concept's
  extent along the timeline, and the exchanges between pairs of speakers.
- `query`: which query tokens are searched and corrected, how query
  variants grow by corrections, and how corrections read in explanations.
- `graph`: the projection of a semantic map and a linguistic analysis into a
  typed graph; confidences and weights are named, not computed.
- `order`, `chars`, `whitespace`, `model`: text order, character helpers,
  Unicode white space and plain data types.
- `laws`: proof functions for properties that span several functions, such as
  the symmetry of the distance, its linear work bound, unambiguous registry
  routing, that span conversions read only byte offsets, that concepts
  partition the units, and that unit parents resolve within their source.

Embedding, clustering by similarity, and every other floating-point score stay
outside the library; `app/` holds those policies, serialization and the JSON
surface of the statistics operation.

## Outside behaviour

Unicode segmentation (graphemes, words, sentences) comes from
`unicode-segmentation`, lower-casing from `str::to_lowercase`, and the
alphabetic test of key terms from `char::is_alphabetic`; their
results are named in the contracts rather than restated. The float scores (similarity, coherence, key-term
ranking, shares) are computed in `app/`, which hands the library their order
as integers. Tests under `tests/` run the library against concrete values.
