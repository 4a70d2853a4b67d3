//! Named transformations and their application in sequence.
use vstd::prelude::*;
use crate::ops::{
    fliph, fliph_view, flipv, flipv_view, grayscale, grayscale_view, lemma_flips_wf,
    lemma_grayscale_wf,
};
use crate::raster::{Image, ImageView};

verus! {

/// A transformation that the pipeline can apply to an image.
#[derive(Clone, Copy, Debug, PartialEq, Eq, Structural)]
pub enum Transformation {
    Grayscale,
    FlipVertical,
    FlipHorizontal,
}

/// The transformation that a name selects: `grayscale`, `flipv` or `fliph`.
pub open spec fn transformation_named(name: Seq<char>) -> Option<Transformation> {
    if name == "grayscale"@ {
        Some(Transformation::Grayscale)
    } else if name == "flipv"@ {
        Some(Transformation::FlipVertical)
    } else if name == "fliph"@ {
        Some(Transformation::FlipHorizontal)
    } else {
        None
    }
}

/// What a transformation does to an image.
pub open spec fn transform_view(v: ImageView, t: Transformation) -> ImageView {
    match t {
        Transformation::Grayscale => grayscale_view(v),
        Transformation::FlipVertical => flipv_view(v),
        Transformation::FlipHorizontal => fliph_view(v),
    }
}

/// The image after the transformations, applied first to last.
pub open spec fn apply_all(v: ImageView, ts: Seq<Transformation>) -> ImageView
    decreases ts.len(),
{
    if ts.len() == 0 {
        v
    } else {
        transform_view(apply_all(v, ts.drop_last()), ts.last())
    }
}

/// Every name selects a transformation.
pub open spec fn all_named(names: Seq<Seq<char>>) -> bool {
    forall|i: int| 0 <= i < names.len() ==> (#[trigger] transformation_named(names[i])) is Some
}

/// The transformations that the names select, in order.
pub open spec fn transformations_named(names: Seq<Seq<char>>) -> Seq<Transformation> {
    names.map_values(|n: Seq<char>| transformation_named(n).unwrap())
}

/// `i` is the first position of a name that selects no transformation.
pub open spec fn first_unknown(names: Seq<Seq<char>>, i: int) -> bool {
    &&& 0 <= i < names.len()
    &&& transformation_named(names[i]) is None
    &&& forall|j: int| 0 <= j < i ==> (#[trigger] transformation_named(names[j])) is Some
}

/// The views of a list of strings.
pub open spec fn string_views(v: Seq<String>) -> Seq<Seq<char>> {
    v.map_values(|s: String| s@)
}

/// Whether two strings hold the same characters.
pub fn str_equals(a: &str, b: &str) -> (r: bool)
    ensures
        r == (a@ == b@),
{
    let n = a.unicode_len();
    if n != b.unicode_len() {
        return false;
    }
    let mut i: usize = 0;
    while i < n
        invariant
            i <= n,
            n == a@.len(),
            n == b@.len(),
            forall|j: int| 0 <= j < i ==> a@[j] == b@[j],
        decreases n - i,
    {
        if a.get_char(i) != b.get_char(i) {
            return false;
        }
        i += 1;
    }
    assert(a@ =~= b@);
    true
}

/// The transformation that a name selects, if any.
pub fn parse_transformation(name: &str) -> (t: Option<Transformation>)
    ensures
        t == transformation_named(name@),
{
    if str_equals(name, "grayscale") {
        Some(Transformation::Grayscale)
    } else if str_equals(name, "flipv") {
        Some(Transformation::FlipVertical)
    } else if str_equals(name, "fliph") {
        Some(Transformation::FlipHorizontal)
    } else {
        None
    }
}

/// Applies one transformation.
pub fn transform(img: &Image, t: Transformation) -> (out: Image)
    ensures
        out@ == transform_view(img@, t),
{
    match t {
        Transformation::Grayscale => grayscale(img),
        Transformation::FlipVertical => flipv(img),
        Transformation::FlipHorizontal => fliph(img),
    }
}

/// Applies the transformation that `name` selects; the name must be one of
/// `grayscale`, `flipv` and `fliph`.
pub fn apply_transformation(img: Image, name: &str) -> (out: Image)
    requires
        transformation_named(name@) is Some,
    ensures
        out@ == transform_view(img@, transformation_named(name@).unwrap()),
{
    let t = parse_transformation(name);
    match t {
        Some(t) => transform(&img, t),
        None => img,
    }
}

/// The transformations that the names select; `Err(i)` when the name at `i`
/// is the first that selects none.
pub fn parse_transformations(names: &Vec<String>) -> (r: Result<Vec<Transformation>, usize>)
    ensures
        match r {
            Ok(ts) => all_named(string_views(names@)) && ts@ == transformations_named(
                string_views(names@),
            ),
            Err(i) => first_unknown(string_views(names@), i as int),
        },
{
    let ghost views = string_views(names@);
    let mut ts: Vec<Transformation> = Vec::new();
    let mut i: usize = 0;
    while i < names.len()
        invariant
            i <= names.len(),
            views == string_views(names@),
            ts@ == transformations_named(views).take(i as int),
            forall|j: int| 0 <= j < i ==> (#[trigger] transformation_named(views[j])) is Some,
        decreases names.len() - i,
    {
        match parse_transformation(names[i].as_str()) {
            Some(t) => {
                ts.push(t);
                assert(ts@ =~= transformations_named(views).take(i + 1));
            },
            None => {
                return Err(i);
            },
        }
        i += 1;
    }
    assert(ts@ =~= transformations_named(views));
    Ok(ts)
}

/// Applies the transformations first to last.
pub fn apply_transformations(img: Image, ts: &Vec<Transformation>) -> (out: Image)
    ensures
        out@ == apply_all(img@, ts@),
{
    let ghost v = img@;
    let mut cur = img;
    let mut i: usize = 0;
    assert(ts@.take(0) =~= Seq::<Transformation>::empty());
    while i < ts.len()
        invariant
            i <= ts.len(),
            cur@ == apply_all(v, ts@.take(i as int)),
        decreases ts.len() - i,
    {
        let next = transform(&cur, ts[i]);
        assert(ts@.take(i + 1).drop_last() =~= ts@.take(i as int));
        cur = next;
        i += 1;
    }
    assert(ts@.take(ts@.len() as int) =~= ts@);
    cur
}

/// Applies the named transformations first to last; `Err(i)` when the name
/// at `i` is the first that selects no transformation.
pub fn apply_named_transformations(img: Image, names: &Vec<String>) -> (r: Result<Image, usize>)
    ensures
        match r {
            Ok(out) => all_named(string_views(names@)) && out@ == apply_all(
                img@,
                transformations_named(string_views(names@)),
            ),
            Err(i) => first_unknown(string_views(names@), i as int),
        },
{
    match parse_transformations(names) {
        Ok(ts) => Ok(apply_transformations(img, &ts)),
        Err(i) => Err(i),
    }
}

/// Applying two lists of transformations one after the other is applying
/// their concatenation.
pub proof fn lemma_apply_all_concat(v: ImageView, a: Seq<Transformation>, b: Seq<Transformation>)
    ensures
        apply_all(v, a + b) == apply_all(apply_all(v, a), b),
    decreases b.len(),
{
    if b.len() == 0 {
        assert(a + b =~= a);
    } else {
        lemma_apply_all_concat(v, a, b.drop_last());
        assert((a + b).drop_last() =~= a + b.drop_last());
        assert((a + b).last() == b.last());
    }
}

/// Every transformation keeps an image well formed.
pub proof fn lemma_apply_all_wf(v: ImageView, ts: Seq<Transformation>)
    requires
        v.wf(),
    ensures
        apply_all(v, ts).wf(),
    decreases ts.len(),
{
    if ts.len() > 0 {
        lemma_apply_all_wf(v, ts.drop_last());
        let u = apply_all(v, ts.drop_last());
        lemma_flips_wf(u);
        lemma_grayscale_wf(u);
    }
}

} // verus!
