# zk_img

A verified library for proving image transformations in a zkVM and composing
the proofs. The programs around it live in `app/`; the library, in `src/`, is
checked by Verus.

- `raster`: the image model (width, height, channels, 8- or 16-bit samples)
  and its row-of-pixels view.
- `ops`, `transform`: vertical and horizontal flips and grayscale, selected by
  name and applied in sequence.
- `codec`: decoding and PNG encoding through the `image` crate, colour
  conversions, and the comparisons that the verifiers make.
- `pipeline`: one proving run, from input bytes and names to output bytes.
- `chain`, `stitch`: composition of chained runs, and stitching of strips
  with the merge of their transformation names; how transformations act on
  stacked strips.
- `journal`: reading receipt files, verifying them, decoding their journals,
  and the checks the verifier programs make of a receipt against an image.
- `prover_input`: what the composition prover is handed, and in which order.
- `receipts`, `names`, `cli`: which receipt files a composition consumes and
  in which order, the files a run writes, and the command lines.
