//! Selection and ordering of the receipt files that a composition consumes.
use vstd::prelude::*;
use crate::transform::string_views;

verus! {

broadcast use vstd::seq_lib::group_to_multiset_ensures;

/// The pattern of a receipt file name that continues a chain: an underscore,
/// digits, and `.bin` at the end.
pub const RECURSIVE_RECEIPT_PATTERN: &'static str = "_\\d+\\.bin$";

/// Whether the regex crate compiles `pattern`.
pub uninterp spec fn regex_compiles(pattern: Seq<char>) -> bool;

/// Whether the regex that the regex crate compiles from `pattern` matches
/// somewhere in `text`.
pub uninterp spec fn regex_matches(pattern: Seq<char>, text: Seq<char>) -> bool;

/// Calls `regex::Regex::new` on the pattern and `Regex::is_match` on each
/// text. Claimed: `None` exactly when the pattern does not compile (named
/// `regex_compiles`), otherwise one answer per text, the named
/// `regex_matches` of the pattern and that text. Nothing is claimed of the
/// regex language itself.
#[verifier::external_body]
fn regex_is_match_each(pattern: &str, texts: &Vec<String>) -> (r: Option<Vec<bool>>)
    ensures
        r is Some <==> regex_compiles(pattern@),
        r matches Some(v) ==> v@.len() == texts@.len() && forall|i: int|
            0 <= i < texts@.len() ==> v@[i] == regex_matches(pattern@, #[trigger] texts@[i]@),
{
    let re = regex::Regex::new(pattern).ok()?;
    let mut out = Vec::new();
    for t in texts.iter() {
        out.push(re.is_match(t));
    }
    Some(out)
}

/// The name has the extension `bin`: it ends in `.bin` after at least one
/// other character.
pub open spec fn has_bin_extension(name: Seq<char>) -> bool {
    name.len() > 4 && name.skip(name.len() - 4) == ".bin"@
}

/// `name` begins with `prefix`.
pub open spec fn starts_with(name: Seq<char>, prefix: Seq<char>) -> bool {
    prefix.len() <= name.len() && name.take(prefix.len() as int) == prefix
}

/// The receipt files among `names`, in order: the last one that starts a
/// chain (it begins with `receipt_`), and those that continue one (they
/// match the recursive pattern), given which names match it.
pub open spec fn classify(names: Seq<Seq<char>>, recursive: Seq<bool>) -> (
    Option<Seq<char>>,
    Seq<Seq<char>>,
)
    decreases names.len(),
{
    if names.len() == 0 {
        (None, Seq::empty())
    } else {
        let (initial, rec) = classify(names.drop_last(), recursive.drop_last());
        let n = names.last();
        if !has_bin_extension(n) {
            (initial, rec)
        } else if recursive.last() {
            (initial, rec.push(n))
        } else if starts_with(n, "receipt_"@) {
            (Some(n), rec)
        } else {
            (initial, rec)
        }
    }
}

/// The initial receipt, when there is one, is the last of the given names
/// that has the `bin` extension, does not match the recursive pattern and
/// begins with `receipt_`; there is none when no name is such.
pub proof fn lemma_classify_initial(names: Seq<Seq<char>>, recursive: Seq<bool>)
    requires
        names.len() == recursive.len(),
    ensures
        classify(names, recursive).0 matches Some(n) ==> exists|i: int|
            0 <= i < names.len() && #[trigger] names[i] == n && has_bin_extension(n) && !recursive[i]
                && starts_with(n, "receipt_"@) && forall|j: int|
                i < j < names.len() ==> !(has_bin_extension(#[trigger] names[j]) && !recursive[j]
                    && starts_with(names[j], "receipt_"@)),
        classify(names, recursive).0 is None ==> forall|j: int|
            0 <= j < names.len() ==> !(has_bin_extension(#[trigger] names[j]) && !recursive[j]
                && starts_with(names[j], "receipt_"@)),
    decreases names.len(),
{
    if names.len() > 0 {
        let p = names.drop_last();
        let q = recursive.drop_last();
        lemma_classify_initial(p, q);
        let last = names.len() - 1;
        let n = names.last();
        assert(n == names[last]);
        assert(recursive.last() == recursive[last]);
        assert forall|i: int| 0 <= i < p.len() implies p[i] == names[i] && q[i] == recursive[i] by {}
        let ci = classify(names, recursive).0;
        if ci is Some {
            let m = ci.unwrap();
            if has_bin_extension(n) && !recursive[last] && starts_with(n, "receipt_"@) {
                assert(names[last] == m);
            } else {
                let i = choose|i: int|
                    0 <= i < p.len() && #[trigger] p[i] == m && has_bin_extension(m) && !q[i]
                        && starts_with(m, "receipt_"@) && forall|j: int|
                        i < j < p.len() ==> !(has_bin_extension(#[trigger] p[j]) && !q[j]
                            && starts_with(p[j], "receipt_"@));
                assert(names[i] == m);
                assert forall|j: int| i < j < names.len() implies !(has_bin_extension(
                    #[trigger] names[j],
                ) && !recursive[j] && starts_with(names[j], "receipt_"@)) by {
                    if j < last {
                        assert(p[j] == names[j]);
                    }
                }
            }
        } else {
            assert forall|j: int| 0 <= j < names.len() implies !(has_bin_extension(
                #[trigger] names[j],
            ) && !recursive[j] && starts_with(names[j], "receipt_"@)) by {
                if j < last {
                    assert(p[j] == names[j]);
                }
            }
        }
    }
}

/// The recursive receipts are exactly the names with the `bin` extension
/// that match the recursive pattern: each is such a name, and each such name
/// is among them.
pub proof fn lemma_classify_recursive(names: Seq<Seq<char>>, recursive: Seq<bool>)
    requires
        names.len() == recursive.len(),
    ensures
        forall|s: Seq<char>|
            #[trigger] classify(names, recursive).1.contains(s) ==> exists|i: int|
                0 <= i < names.len() && #[trigger] names[i] == s && has_bin_extension(s)
                    && recursive[i],
        forall|i: int|
            0 <= i < names.len() && has_bin_extension(#[trigger] names[i]) && recursive[i]
                ==> classify(names, recursive).1.contains(names[i]),
    decreases names.len(),
{
    if names.len() > 0 {
        let p = names.drop_last();
        let q = recursive.drop_last();
        lemma_classify_recursive(p, q);
        let last = names.len() - 1;
        let n = names.last();
        assert(n == names[last]);
        assert(recursive.last() == recursive[last]);
        assert forall|i: int| 0 <= i < p.len() implies p[i] == names[i] && q[i] == recursive[i] by {}
        let pr = classify(p, q).1;
        let cr = classify(names, recursive).1;
        assert(cr == pr || (cr == pr.push(n) && has_bin_extension(n) && recursive[last]));
        assert forall|s: Seq<char>| #[trigger] cr.contains(s) implies exists|i: int|
            0 <= i < names.len() && #[trigger] names[i] == s && has_bin_extension(s)
                && recursive[i] by {
            if pr.contains(s) {
                let i = choose|i: int|
                    0 <= i < p.len() && #[trigger] p[i] == s && has_bin_extension(s) && q[i];
                assert(names[i] == s);
            } else {
                let k = choose|k: int| 0 <= k < cr.len() && cr[k] == s;
                if k < pr.len() {
                    assert(cr[k] == pr[k]);
                    assert(pr.contains(s));
                }
                assert(s == n);
                assert(names[last] == s);
            }
        }
        assert forall|i: int|
            0 <= i < names.len() && has_bin_extension(#[trigger] names[i]) && recursive[i]
                implies cr.contains(names[i]) by {
            if i < last {
                assert(p[i] == names[i]);
                assert(pr.contains(p[i]));
                let k = choose|k: int| 0 <= k < pr.len() && pr[k] == p[i];
                assert(cr[k] == pr[k]);
            } else {
                assert(cr[cr.len() - 1] == n);
            }
        }
    }
}

/// Code-point order on strings: a proper prefix comes first, otherwise the
/// first differing character decides.
pub open spec fn lex_le(a: Seq<char>, b: Seq<char>) -> bool
    decreases a.len(),
{
    if a.len() == 0 {
        true
    } else if b.len() == 0 {
        false
    } else if (a[0] as u32) < (b[0] as u32) {
        true
    } else if (a[0] as u32) == (b[0] as u32) {
        lex_le(a.drop_first(), b.drop_first())
    } else {
        false
    }
}

/// The strings are in code-point order.
pub open spec fn sorted(s: Seq<Seq<char>>) -> bool {
    forall|i: int, j: int| 0 <= i < j < s.len() ==> lex_le(#[trigger] s[i], #[trigger] s[j])
}

/// Any two strings are ordered one way or the other.
pub proof fn lemma_lex_total(a: Seq<char>, b: Seq<char>)
    ensures
        lex_le(a, b) || lex_le(b, a),
    decreases a.len(),
{
    if a.len() > 0 && b.len() > 0 && (a[0] as u32) == (b[0] as u32) {
        lemma_lex_total(a.drop_first(), b.drop_first());
    }
}

/// Code-point order is transitive.
pub proof fn lemma_lex_transitive(a: Seq<char>, b: Seq<char>, c: Seq<char>)
    requires
        lex_le(a, b),
        lex_le(b, c),
    ensures
        lex_le(a, c),
    decreases a.len(),
{
    if a.len() > 0 && b.len() > 0 && c.len() > 0 && (a[0] as u32) == (b[0] as u32) && (b[0] as u32)
        == (c[0] as u32) {
        lemma_lex_transitive(a.drop_first(), b.drop_first(), c.drop_first());
    }
}

/// Whether `a` comes no later than `b` in code-point order.
pub fn lex_le_exec(a: &str, b: &str) -> (r: bool)
    ensures
        r == lex_le(a@, b@),
{
    let n = a.unicode_len();
    let m = b.unicode_len();
    let mut i: usize = 0;
    assert(a@.skip(0) =~= a@);
    assert(b@.skip(0) =~= b@);
    while i < n
        invariant
            i <= n,
            n == a@.len(),
            m == b@.len(),
            i <= m,
            lex_le(a@, b@) == lex_le(a@.skip(i as int), b@.skip(i as int)),
        decreases n - i,
    {
        if i >= m {
            return false;
        }
        let c = a.get_char(i);
        let d = b.get_char(i);
        assert(a@.skip(i as int)[0] == c);
        assert(b@.skip(i as int)[0] == d);
        if (c as u32) < (d as u32) {
            return true;
        }
        if (c as u32) != (d as u32) {
            return false;
        }
        assert(a@.skip(i as int).drop_first() =~= a@.skip(i + 1));
        assert(b@.skip(i as int).drop_first() =~= b@.skip(i + 1));
        i += 1;
    }
    true
}

/// The strings in code-point order.
pub fn sort_names(names: Vec<String>) -> (r: Vec<String>)
    ensures
        sorted(string_views(r@)),
        string_views(r@).to_multiset() == string_views(names@).to_multiset(),
{
    let ghost input = string_views(names@);
    let mut out: Vec<String> = Vec::new();
    let mut k: usize = 0;
    assert(input.take(0) =~= Seq::<Seq<char>>::empty());
    assert(string_views(out@) =~= Seq::<Seq<char>>::empty());
    while k < names.len()
        invariant
            k <= names.len(),
            input == string_views(names@),
            sorted(string_views(out@)),
            string_views(out@).to_multiset() == input.take(k as int).to_multiset(),
        decreases names.len() - k,
    {
        let s = &names[k];
        let ghost cur = string_views(out@);
        let mut pos: usize = 0;
        while pos < out.len() && lex_le_exec(out[pos].as_str(), s.as_str())
            invariant
                pos <= out.len(),
                cur == string_views(out@),
                forall|j: int| 0 <= j < pos ==> lex_le(#[trigger] cur[j], s@),
            decreases out.len() - pos,
        {
            pos += 1;
        }
        let ghost x = s@;
        let item = s.clone();
        out.insert(pos, item);
        let ghost next = string_views(out@);
        assert(next =~= cur.insert(pos as int, x));
        assert(next.len() == cur.len() + 1);
        assert(forall|t: int| 0 <= t < pos ==> next[t] == cur[t]);
        assert(forall|t: int| pos < t < next.len() ==> next[t] == cur[t - 1]);
        assert(next[pos as int] == x);
        assert forall|i: int, j: int| 0 <= i < j < next.len() implies lex_le(
            #[trigger] next[i],
            #[trigger] next[j],
        ) by {
            if pos < cur.len() {
                if !lex_le(cur[pos as int], x) {
                    lemma_lex_total(cur[pos as int], x);
                }
            }
            if i < pos && j < pos {
                assert(next[i] == cur[i]);
                assert(next[j] == cur[j]);
            } else if i < pos && j == pos {
            } else if i < pos && j > pos {
                assert(next[i] == cur[i]);
                assert(next[j] == cur[j - 1]);
                assert(lex_le(cur[i], cur[j - 1]));
            } else if i == pos {
                assert(next[j] == cur[j - 1]);
                if j - 1 > pos {
                    assert(lex_le(cur[pos as int], cur[j - 1]));
                    lemma_lex_transitive(x, cur[pos as int], cur[j - 1]);
                }
            } else {
                assert(next[i] == cur[i - 1]);
                assert(next[j] == cur[j - 1]);
            }
        }
        assert(input.take(k + 1) =~= input.take(k as int).push(x));
        assert(input[k as int] == x);
        k += 1;
    }
    assert(input.take(k as int) =~= input);
    out
}

#[derive(Clone, Debug)]
/// The receipt files among the directory's file names.
pub struct ReceiptFiles {
    /// The last file that starts a chain, if any.
    pub initial: Option<String>,
    /// The files that continue a chain, in code-point order.
    pub recursive: Vec<String>,
}

fn has_bin_extension_exec(name: &str) -> (r: bool)
    ensures
        r == has_bin_extension(name@),
{
    proof {
        reveal_strlit(".bin");
    }
    let n = name.unicode_len();
    if n <= 4 {
        return false;
    }
    let r = name.get_char(n - 4) == '.' && name.get_char(n - 3) == 'b' && name.get_char(n - 2)
        == 'i' && name.get_char(n - 1) == 'n';
    assert(r ==> name@.skip(n - 4) =~= ".bin"@);
    assert(name@.skip(n - 4) == ".bin"@ ==> name@.skip(n - 4)[0] == '.' && name@.skip(n - 4)[1]
        == 'b' && name@.skip(n - 4)[2] == 'i' && name@.skip(n - 4)[3] == 'n');
    r
}

fn starts_with_exec(name: &str, prefix: &str) -> (r: bool)
    ensures
        r == starts_with(name@, prefix@),
{
    let n = name.unicode_len();
    let m = prefix.unicode_len();
    if m > n {
        return false;
    }
    let mut i: usize = 0;
    while i < m
        invariant
            i <= m,
            m <= n,
            n == name@.len(),
            m == prefix@.len(),
            forall|j: int| 0 <= j < i ==> name@[j] == prefix@[j],
        decreases m - i,
    {
        if name.get_char(i) != prefix.get_char(i) {
            assert(name@.take(m as int)[i as int] != prefix@[i as int]);
            return false;
        }
        i += 1;
    }
    assert(name@.take(m as int) =~= prefix@);
    true
}

/// Picks the receipt files from the file names, given for each name whether
/// it matches `RECURSIVE_RECEIPT_PATTERN`: among the names with the extension
/// `bin`, the matching ones continue a chain and come back in code-point
/// order; of the others, the last that begins with `receipt_` starts it.
pub fn classify_receipts(names: &Vec<String>, recursive: &Vec<bool>) -> (r: ReceiptFiles)
    requires
        recursive@.len() == names@.len(),
    ensures
        (match r.initial {
            Some(s) => Some(s@),
            None => None,
        }) == classify(string_views(names@), recursive@).0,
        sorted(string_views(r.recursive@)),
        string_views(r.recursive@).to_multiset() == classify(
            string_views(names@),
            recursive@,
        ).1.to_multiset(),
{
    let ghost views = string_views(names@);
    let mut initial: Option<String> = None;
    let mut rec: Vec<String> = Vec::new();
    let mut i: usize = 0;
    assert(views.take(0) =~= Seq::<Seq<char>>::empty());
    assert(recursive@.take(0) =~= Seq::<bool>::empty());
    assert(string_views(rec@) =~= Seq::<Seq<char>>::empty());
    while i < names.len()
        invariant
            i <= names.len(),
            views == string_views(names@),
            recursive@.len() == names@.len(),
            (match initial {
                Some(s) => Some(s@),
                None => None,
            }) == classify(views.take(i as int), recursive@.take(i as int)).0,
            string_views(rec@) == classify(views.take(i as int), recursive@.take(i as int)).1,
        decreases names.len() - i,
    {
        let name = &names[i];
        assert(views.take(i + 1).drop_last() =~= views.take(i as int));
        assert(recursive@.take(i + 1).drop_last() =~= recursive@.take(i as int));
        assert(views.take(i + 1).last() == name@);
        if has_bin_extension_exec(name.as_str()) {
            if recursive[i] {
                let ghost before = rec@;
                rec.push(name.clone());
                assert(string_views(rec@) =~= string_views(before).push(name@));
            } else if starts_with_exec(name.as_str(), "receipt_") {
                initial = Some(name.clone());
            }
        }
        i += 1;
    }
    assert(views.take(i as int) =~= views);
    assert(recursive@.take(i as int) =~= recursive@);
    let sorted_rec = sort_names(rec);
    ReceiptFiles { initial, recursive: sorted_rec }
}

/// Picks the receipt files from the names of the regular files of the
/// receipt directory (in the order the directory lists them), matching each
/// name against `RECURSIVE_RECEIPT_PATTERN` with the regex crate. `None` when
/// the pattern does not compile.
pub fn select_receipts(names: &Vec<String>) -> (r: Option<ReceiptFiles>)
    ensures
        r is Some <==> regex_compiles(RECURSIVE_RECEIPT_PATTERN@),
        r matches Some(rf) ==> {
            let matches = Seq::new(
                names@.len(),
                |i: int| regex_matches(RECURSIVE_RECEIPT_PATTERN@, names@[i]@),
            );
            &&& (match rf.initial {
                Some(s) => Some(s@),
                None => None,
            }) == classify(string_views(names@), matches).0
            &&& sorted(string_views(rf.recursive@))
            &&& string_views(rf.recursive@).to_multiset() == classify(
                string_views(names@),
                matches,
            ).1.to_multiset()
        },
{
    match regex_is_match_each(RECURSIVE_RECEIPT_PATTERN, names) {
        Some(m) => {
            assert(m@ =~= Seq::new(
                names@.len(),
                |i: int| regex_matches(RECURSIVE_RECEIPT_PATTERN@, names@[i]@),
            ));
            Some(classify_receipts(names, &m))
        },
        None => None,
    }
}

} // verus!
