//! Text rules of the host programs: decimal numbers, joined names, the
//! files a proving run writes, and the arguments the host accepts.
use vstd::prelude::*;
use crate::transform::{str_equals, string_views};

verus! {

/// The decimal digit character for `d`.
pub open spec fn digit_char(d: int) -> char {
    if d == 0 {
        '0'
    } else if d == 1 {
        '1'
    } else if d == 2 {
        '2'
    } else if d == 3 {
        '3'
    } else if d == 4 {
        '4'
    } else if d == 5 {
        '5'
    } else if d == 6 {
        '6'
    } else if d == 7 {
        '7'
    } else if d == 8 {
        '8'
    } else {
        '9'
    }
}

/// The value of a digit character.
pub open spec fn digit_value(c: char) -> int {
    if c == '0' {
        0
    } else if c == '1' {
        1
    } else if c == '2' {
        2
    } else if c == '3' {
        3
    } else if c == '4' {
        4
    } else if c == '5' {
        5
    } else if c == '6' {
        6
    } else if c == '7' {
        7
    } else if c == '8' {
        8
    } else {
        9
    }
}

/// An ASCII decimal digit.
pub open spec fn is_digit(c: char) -> bool {
    c == '0' || c == '1' || c == '2' || c == '3' || c == '4' || c == '5' || c == '6' || c == '7'
        || c == '8' || c == '9'
}

/// The decimal representation of `n`, without leading zeros.
pub open spec fn decimal(n: nat) -> Seq<char>
    decreases n,
{
    if n < 10 {
        seq![digit_char(n as int)]
    } else {
        decimal(n / 10).push(digit_char((n % 10) as int))
    }
}

/// The number that a string of digits denotes.
pub open spec fn digits_value(s: Seq<char>) -> nat
    decreases s.len(),
{
    if s.len() == 0 {
        0
    } else {
        (digits_value(s.drop_last()) * 10 + digit_value(s.last())) as nat
    }
}

/// Every character is a decimal digit.
pub open spec fn all_digits(s: Seq<char>) -> bool {
    forall|i: int| 0 <= i < s.len() ==> is_digit(#[trigger] s[i])
}

/// The `u32` that a string denotes as Rust reads one: an optional `+`, then
/// at least one decimal digit, and a value that fits in 32 bits.
pub open spec fn parse_u32_spec(s: Seq<char>) -> Option<u32> {
    let d = if s.len() > 0 && s[0] == '+' {
        s.drop_first()
    } else {
        s
    };
    if d.len() > 0 && all_digits(d) && digits_value(d) <= u32::MAX {
        Some(digits_value(d) as u32)
    } else {
        None
    }
}

fn digit_str(d: u32) -> (s: &'static str)
    requires
        d < 10,
    ensures
        s@ == seq![digit_char(d as int)],
{
    proof {
        reveal_strlit("0");
        reveal_strlit("1");
        reveal_strlit("2");
        reveal_strlit("3");
        reveal_strlit("4");
        reveal_strlit("5");
        reveal_strlit("6");
        reveal_strlit("7");
        reveal_strlit("8");
        reveal_strlit("9");
    }
    if d == 0 {
        "0"
    } else if d == 1 {
        "1"
    } else if d == 2 {
        "2"
    } else if d == 3 {
        "3"
    } else if d == 4 {
        "4"
    } else if d == 5 {
        "5"
    } else if d == 6 {
        "6"
    } else if d == 7 {
        "7"
    } else if d == 8 {
        "8"
    } else {
        "9"
    }
}

/// Appends the decimal representation of `n`.
pub fn push_decimal(s: &mut String, n: u32)
    ensures
        final(s)@ == old(s)@ + decimal(n as nat),
    decreases n,
{
    if n >= 10 {
        push_decimal(s, n / 10);
        s.append(digit_str(n % 10));
        assert(decimal(n as nat) == decimal((n / 10) as nat).push(digit_char((n % 10) as int)));
    } else {
        s.append(digit_str(n));
        assert(decimal(n as nat) =~= seq![digit_char(n as int)]);
    }
}

/// The decimal representation of `n`.
pub fn to_decimal(n: u32) -> (s: String)
    ensures
        s@ == decimal(n as nat),
{
    let mut s = String::new();
    push_decimal(&mut s, n);
    assert(Seq::<char>::empty() + decimal(n as nat) =~= decimal(n as nat));
    s
}

fn char_digit(c: char) -> (r: Option<u32>)
    ensures
        r is Some <==> is_digit(c),
        r matches Some(d) ==> d == digit_value(c) && d < 10,
{
    if c == '0' {
        Some(0)
    } else if c == '1' {
        Some(1)
    } else if c == '2' {
        Some(2)
    } else if c == '3' {
        Some(3)
    } else if c == '4' {
        Some(4)
    } else if c == '5' {
        Some(5)
    } else if c == '6' {
        Some(6)
    } else if c == '7' {
        Some(7)
    } else if c == '8' {
        Some(8)
    } else if c == '9' {
        Some(9)
    } else {
        None
    }
}

/// Appending digits never lowers the value.
pub proof fn lemma_digits_value_prefix(d: Seq<char>, k: int)
    requires
        0 <= k <= d.len(),
    ensures
        digits_value(d.take(k)) <= digits_value(d),
    decreases d.len() - k,
{
    if k < d.len() {
        lemma_digits_value_prefix(d.drop_last(), k);
        assert(d.drop_last().take(k) =~= d.take(k));
    } else {
        assert(d.take(k) =~= d);
    }
}

/// Reads a `u32` as Rust's `str::parse::<u32>` does.
pub fn parse_u32(s: &str) -> (r: Option<u32>)
    ensures
        r == parse_u32_spec(s@),
{
    let n = s.unicode_len();
    let mut start: usize = 0;
    if n > 0 && s.get_char(0) == '+' {
        start = 1;
    }
    let ghost d = if s@.len() > 0 && s@[0] == '+' {
        s@.drop_first()
    } else {
        s@
    };
    assert(d =~= s@.subrange(start as int, n as int));
    if start >= n {
        return None;
    }
    let mut value: u64 = 0;
    let mut i: usize = start;
    assert(d.take(0) =~= Seq::<char>::empty());
    while i < n
        invariant
            start <= i <= n,
            n == s@.len(),
            d == (if s@.len() > 0 && s@[0] == '+' {
                s@.drop_first()
            } else {
                s@
            }),
            d == s@.subrange(start as int, n as int),
            value == digits_value(d.take(i - start)),
            value <= u32::MAX,
            all_digits(d.take(i - start)),
        decreases n - i,
    {
        let c = s.get_char(i);
        assert(c == d[i - start]);
        assert(d.take(i - start + 1).drop_last() =~= d.take(i - start));
        match char_digit(c) {
            Some(v) => {
                let next = value * 10 + v as u64;
                if next > u32::MAX as u64 {
                    proof {
                        if all_digits(d) {
                            lemma_digits_value_prefix(d, i - start + 1);
                        }
                    }
                    return None;
                }
                value = next;
                assert(all_digits(d.take(i - start + 1)));
            },
            None => {
                assert(!is_digit(d[i - start]));
                assert(!all_digits(d));
                return None;
            },
        }
        i += 1;
    }
    assert(d.take(n - start) =~= d);
    Some(value as u32)
}

/// A decimal representation reads back as the number it represents.
pub proof fn lemma_parse_decimal(n: u32)
    ensures
        parse_u32_spec(decimal(n as nat)) == Some(n),
{
    lemma_decimal_digits(n as nat);
}

/// The decimal representation of a number is a nonempty run of digits whose
/// value is the number.
pub proof fn lemma_decimal_digits(n: nat)
    ensures
        decimal(n).len() > 0,
        all_digits(decimal(n)),
        digits_value(decimal(n)) == n,
        decimal(n)[0] != '+',
    decreases n,
{
    assert(forall|k: int| 0 <= k < 10 ==> #[trigger] digit_value(digit_char(k)) == k && is_digit(
        digit_char(k),
    ));
    if n >= 10 {
        lemma_decimal_digits(n / 10);
        let d = decimal(n);
        assert(d.drop_last() =~= decimal(n / 10));
        assert(d[0] == decimal(n / 10)[0]);
        assert(d.last() == digit_char((n % 10) as int));
        assert(digit_value(d.last()) == n % 10);
        assert(digits_value(d) == digits_value(decimal(n / 10)) * 10 + n % 10);
    } else {
        let d = decimal(n);
        assert(d.drop_last() =~= Seq::<char>::empty());
        assert(digits_value(Seq::<char>::empty()) == 0);
        assert(digits_value(d) == digit_value(d.last()));
    }
}

/// The strings of `list`, with `sep` between each two.
pub open spec fn seq_join(list: Seq<Seq<char>>, sep: Seq<char>) -> Seq<char>
    decreases list.len(),
{
    if list.len() == 0 {
        Seq::empty()
    } else if list.len() == 1 {
        list[0]
    } else {
        seq_join(list.drop_last(), sep) + sep + list.last()
    }
}

/// Joins the strings with `sep` between each two.
pub fn join(list: &Vec<String>, sep: &str) -> (r: String)
    ensures
        r@ == seq_join(string_views(list@), sep@),
{
    let ghost views = string_views(list@);
    let mut out = String::new();
    let mut i: usize = 0;
    assert(views.take(0) =~= Seq::<Seq<char>>::empty());
    while i < list.len()
        invariant
            i <= list.len(),
            views == string_views(list@),
            out@ == seq_join(views.take(i as int), sep@),
        decreases list.len() - i,
    {
        assert(views[i as int] == list@[i as int]@);
        if i > 0 {
            out.append(sep);
        }
        out.append(list[i].as_str());
        assert(views.take(i + 1).drop_last() =~= views.take(i as int));
        if i == 0 {
            assert(out@ =~= seq_join(views.take(1), sep@));
        }
        i += 1;
    }
    assert(views.take(i as int) =~= views);
    out
}

/// The receipt file and the image file that a proving run writes: named by
/// the run's number when it has one, else by its transformations joined
/// with `_`.
pub open spec fn run_file_names(ts: Seq<Seq<char>>, id: Option<u32>) -> (Seq<char>, Seq<char>) {
    match id {
        Some(i) => (
            "receipt_"@ + decimal(i as nat) + ".bin"@,
            "image_"@ + decimal(i as nat) + ".png"@,
        ),
        None => {
            let label = seq_join(ts, "_"@);
            ("receipt_"@ + label + ".bin"@, "img_"@ + label + ".png"@)
        },
    }
}

/// The receipt file and the image file that a proving run writes.
pub fn run_file_names_for(transformations: &Vec<String>, recursive_id: Option<u32>) -> (r: (
    String,
    String,
))
    ensures
        (r.0@, r.1@) == run_file_names(string_views(transformations@), recursive_id),
{
    let (middle, image_prefix) = match recursive_id {
        Some(id) => (to_decimal(id), "image_"),
        None => (join(transformations, "_"), "img_"),
    };
    let mut receipt = String::from_str("receipt_");
    receipt.append(middle.as_str());
    receipt.append(".bin");
    let mut image = String::from_str(image_prefix);
    image.append(middle.as_str());
    image.append(".png");
    (receipt, image)
}

} // verus!
