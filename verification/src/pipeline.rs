//! One proving run: decode an image, apply the named transformations, encode
//! the result as PNG, and shape what the run makes public.
use vstd::prelude::*;
use crate::codec::{decode_image, decode_view, encode_png, png_of};
use crate::chain::{compose, StepView};
use crate::raster::{lemma_raster_view_wf, ImageView};
use crate::transform::{
    all_named, apply_all, apply_named_transformations, first_unknown, lemma_apply_all_concat,
    lemma_apply_all_wf, string_views, transformations_named,
};

verus! {

/// Why a run produced no image.
#[derive(Clone, Copy, Debug, PartialEq, Eq, Structural)]
pub enum PipelineError {
    /// The input bytes do not decode to an image.
    DecodeFailed,
    /// The name at this position selects no transformation.
    UnknownTransformation(usize),
    /// The transformed image could not be encoded.
    EncodeFailed,
}

/// The PNG bytes of the image that `input` decodes to, after the named
/// transformations, when each step succeeds.
pub open spec fn transformed_png(input: Seq<u8>, names: Seq<Seq<char>>) -> Option<Seq<u8>> {
    match decode_view(input) {
        Some(v) => if all_named(names) {
            png_of(apply_all(v, transformations_named(names)))
        } else {
            None
        },
        None => None,
    }
}

/// Decodes `input`, applies the named transformations first to last, and
/// encodes the result as PNG.
pub fn transform_image_bytes(input: &Vec<u8>, names: &Vec<String>) -> (r: Result<
    Vec<u8>,
    PipelineError,
>)
    ensures
        match r {
            Ok(out) => transformed_png(input@, string_views(names@)) == Some(out@),
            Err(PipelineError::DecodeFailed) => decode_view(input@) is None,
            Err(PipelineError::UnknownTransformation(i)) => decode_view(input@) is Some
                && first_unknown(string_views(names@), i as int),
            Err(PipelineError::EncodeFailed) => decode_view(input@) is Some && all_named(
                string_views(names@),
            ) && transformed_png(input@, string_views(names@)) is None,
        },
{
    let img = match decode_image(input.as_slice()) {
        Some(img) => img,
        None => {
            return Err(PipelineError::DecodeFailed);
        },
    };
    let out = match apply_named_transformations(img, names) {
        Ok(out) => out,
        Err(i) => {
            return Err(PipelineError::UnknownTransformation(i));
        },
    };
    match encode_png(&out) {
        Some(bytes) => Ok(bytes),
        None => Err(PipelineError::EncodeFailed),
    }
}

/// What a run makes public: in a chained run the input too, so that a later
/// composition can check that it continues the previous output.
#[derive(Clone, Debug)]
pub enum Journal {
    Chained { input: Vec<u8>, transformations: Vec<String>, output: Vec<u8> },
    Single { transformations: Vec<String>, output: Vec<u8> },
}

/// Runs the transformations on `input` and shapes the public record: with
/// the input when `chained`, without it otherwise.
pub fn run_transformations(chained: bool, input: Vec<u8>, names: Vec<String>) -> (r: Result<
    Journal,
    PipelineError,
>)
    ensures
        r is Ok <==> transformed_png(input@, string_views(names@)) is Some,
        match r {
            Ok(Journal::Chained { input: i, transformations: t, output: o }) => chained && i@
                == input@ && t@ == names@ && transformed_png(input@, string_views(names@)) == Some(
                o@,
            ),
            Ok(Journal::Single { transformations: t, output: o }) => !chained && t@ == names@
                && transformed_png(input@, string_views(names@)) == Some(o@),
            Err(e) => transform_image_bytes_fails(input@, string_views(names@), e),
        },
{
    let output = match transform_image_bytes(&input, &names) {
        Ok(o) => o,
        Err(e) => {
            return Err(e);
        },
    };
    if chained {
        Ok(Journal::Chained { input, transformations: names, output })
    } else {
        Ok(Journal::Single { transformations: names, output })
    }
}

/// The error that a failed run reports, and when it reports it.
pub open spec fn transform_image_bytes_fails(
    input: Seq<u8>,
    names: Seq<Seq<char>>,
    e: PipelineError,
) -> bool {
    match e {
        PipelineError::DecodeFailed => decode_view(input) is None,
        PipelineError::UnknownTransformation(i) => decode_view(input) is Some && first_unknown(
            names,
            i as int,
        ),
        PipelineError::EncodeFailed => decode_view(input) is Some && all_named(names)
            && transformed_png(input, names) is None,
    }
}

/// Decoding the PNG encoding of a well-formed image gives the image back.
pub open spec fn png_round_trips() -> bool {
    forall|v: ImageView|
        v.wf() && (#[trigger] png_of(v)) is Some ==> decode_view(png_of(v).unwrap()) == Some(v)
}

/// A decoded image is well formed.
pub proof fn lemma_decode_wf(bytes: Seq<u8>)
    requires
        decode_view(bytes) is Some,
    ensures
        decode_view(bytes).unwrap().wf(),
{
    let (w, h, c, sixteen, a, b) = crate::codec::decoded_image(bytes).unwrap();
    let d = if sixteen {
        crate::raster::Depth::Sixteen
    } else {
        crate::raster::Depth::Eight
    };
    let s = if sixteen {
        b
    } else {
        crate::codec::widen(a)
    };
    lemma_raster_view_wf(s, w as nat, h as nat, c, d);
}

/// A chain of runs is one run: when the first run turned `source` into
/// `first` with `first_names`, each later run turned its input into its
/// output, and each run continues the one before it, then the final image
/// is what a single run of all the recorded transformations makes of
/// `source` (provided PNG encoding round-trips).
pub proof fn lemma_chain_is_one_run(
    source: Seq<u8>,
    first_names: Seq<Seq<char>>,
    first: Seq<u8>,
    steps: Seq<StepView>,
)
    requires
        png_round_trips(),
        transformed_png(source, first_names) == Some(first),
        forall|i: int|
            0 <= i < steps.len() ==> transformed_png(
                (#[trigger] steps[i]).input,
                steps[i].transformations,
            ) == Some(steps[i].output),
        compose(first, first_names, steps) is Some,
    ensures
        transformed_png(source, compose(first, first_names, steps).unwrap().1) == Some(
            compose(first, first_names, steps).unwrap().0,
        ),
    decreases steps.len(),
{
    if steps.len() > 0 {
        let p = steps.drop_last();
        assert forall|i: int| 0 <= i < p.len() implies transformed_png(
            (#[trigger] p[i]).input,
            p[i].transformations,
        ) == Some(p[i].output) by {
            assert(p[i] == steps[i]);
        }
        lemma_chain_is_one_run(source, first_names, first, p);
        let (img, t) = compose(first, first_names, p).unwrap();
        let last = steps.last();
        assert(last == steps[steps.len() - 1]);
        let v = decode_view(source).unwrap();
        lemma_decode_wf(source);
        let ts = transformations_named(t);
        let u = apply_all(v, ts);
        lemma_apply_all_wf(v, ts);
        assert(png_of(u) == Some(img));
        assert(decode_view(img) == Some(u));
        let ls = last.transformations;
        let all = t + ls;
        assert forall|i: int| 0 <= i < all.len() implies (#[trigger] crate::transform::transformation_named(
            all[i],
        )) is Some by {
            if i < t.len() {
                assert(all[i] == t[i]);
            } else {
                assert(all[i] == ls[i - t.len()]);
            }
        }
        assert(transformations_named(all) =~= ts + transformations_named(ls));
        lemma_apply_all_concat(v, ts, transformations_named(ls));
    }
}

} // verus!
