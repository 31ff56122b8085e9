//! Text primitives shared by the analysis: comparing strings, cutting a
//! byte range out of UTF-8 text, joining path segments and writing numbers.

use vstd::prelude::*;
use vstd::string::*;
use vstd::utf8::*;

verus! {

/// The text that the bytes `start..end` of `source` spell, where `source` is
/// taken in its UTF-8 encoding.
///
/// An empty range inside the text is the empty string. A non-empty range is
/// text exactly when both its ends fall between two characters. Everything
/// else, a range that runs backwards or past the end included, has no text.
pub open spec fn text_between(source: Seq<char>, start: int, end: int) -> Option<Seq<char>> {
    let bytes = encode_utf8(source);
    if 0 <= start <= end <= bytes.len() {
        if start == end {
            Some(Seq::<char>::empty())
        } else if is_char_boundary(bytes, start) && is_char_boundary(bytes, end) {
            Some(decode_utf8(bytes.subrange(start, end)))
        } else {
            None
        }
    } else {
        None
    }
}

/// `parts` written one after the other with `sep` between neighbours.
pub open spec fn join_spec(parts: Seq<Seq<char>>, sep: Seq<char>) -> Seq<char>
    decreases parts.len(),
{
    if parts.len() == 0 {
        Seq::<char>::empty()
    } else if parts.len() == 1 {
        parts[0]
    } else {
        join_spec(parts.drop_last(), sep) + sep + parts.last()
    }
}

/// The character that writes the digit `d`.
pub open spec fn digit_char(d: nat) -> char {
    if d == 0 {
        '0'
    } else if d == 1 {
        '1'
    } else if d == 2 {
        '2'
    } else if d == 3 {
        '3'
    } else if d == 4 {
        '4'
    } else if d == 5 {
        '5'
    } else if d == 6 {
        '6'
    } else if d == 7 {
        '7'
    } else if d == 8 {
        '8'
    } else {
        '9'
    }
}

/// `n` written in base ten, most significant digit first, without leading
/// zeros.
pub open spec fn decimal_spec(n: nat) -> Seq<char>
    decreases n,
{
    if n < 10 {
        seq![digit_char(n)]
    } else {
        decimal_spec(n / 10).push(digit_char(n % 10))
    }
}

/// Two texts are equal exactly when their encodings are.
pub proof fn lemma_encoding_decides_equality(a: Seq<char>, b: Seq<char>)
    ensures
        (encode_utf8(a) == encode_utf8(b)) <==> (a == b),
{
    encode_utf8_decode_utf8(a);
    encode_utf8_decode_utf8(b);
}

/// A character boundary of a text is also one of every prefix of the text
/// that ends at a later boundary.
proof fn lemma_boundary_in_prefix(bytes: Seq<u8>, start: int, end: int)
    requires
        valid_utf8(bytes),
        0 <= start <= end <= bytes.len(),
        is_char_boundary(bytes, start),
        is_char_boundary(bytes, end),
    ensures
        valid_utf8(bytes.subrange(0, end)),
        is_char_boundary(bytes.subrange(0, end), start),
{
    let prefix = bytes.subrange(0, end);
    valid_utf8_split(bytes, end);
    if start == end {
        is_char_boundary_start_end_of_seq(prefix);
    } else {
        is_char_boundary_iff_not_is_continuation_byte(bytes, start);
        is_char_boundary_iff_not_is_continuation_byte(prefix, start);
    }
}

/// Whether `a` and `b` hold the same text.
pub fn str_eq(a: &str, b: &str) -> (same: bool)
    ensures
        same == (a@ == b@),
{
    let x = a.as_bytes();
    let y = b.as_bytes();
    proof {
        lemma_encoding_decides_equality(a@, b@);
    }
    if x.len() != y.len() {
        return false;
    }
    let mut i: usize = 0;
    while i < x.len()
        invariant
            i <= x.len(),
            x.len() == y.len(),
            x@ == encode_utf8(a@),
            y@ == encode_utf8(b@),
            (encode_utf8(a@) == encode_utf8(b@)) <==> (a@ == b@),
            forall|k: int| 0 <= k < i ==> x@[k] == y@[k],
        decreases x.len() - i,
    {
        if x[i] != y[i] {
            return false;
        }
        i += 1;
    }
    assert(x@ =~= y@);
    true
}

/// Cuts the bytes `start..end` out of `source`, where they spell a text.
pub fn slice_text<'a>(source: &'a str, start: usize, end: usize) -> (text: Option<&'a str>)
    ensures
        match text {
            Some(t) => text_between(source@, start as int, end as int) == Some(t@),
            None => text_between(source@, start as int, end as int) is None,
        },
{
    let ghost bytes = encode_utf8(source@);
    proof {
        encode_utf8_valid_utf8(source@);
    }
    if start > end || end > source.as_bytes().len() {
        return None;
    }
    if start == end {
        let empty = "";
        proof {
            reveal_strlit("");
            assert(empty@ =~= Seq::<char>::empty());
        }
        return Some(empty);
    }
    if !source.is_char_boundary(start) || !source.is_char_boundary(end) {
        return None;
    }
    proof {
        lemma_boundary_in_prefix(bytes, start as int, end as int);
    }
    let (head, _) = source.split_at(end);
    let (_, text) = head.split_at(start);
    proof {
        let prefix = bytes.subrange(0, end as int);
        assert(head.spec_bytes() == prefix);
        assert(text.spec_bytes() =~= bytes.subrange(start as int, end as int));
        encode_utf8_decode_utf8(text@);
    }
    Some(text)
}

/// Writes `parts` one after the other with `sep` between neighbours.
pub fn join(parts: &Vec<String>, sep: &str) -> (joined: String)
    ensures
        joined@ == join_spec(parts.deep_view(), sep@),
{
    let ghost views = parts.deep_view();
    let mut joined = String::new();
    let mut i: usize = 0;
    while i < parts.len()
        invariant
            i <= parts.len(),
            views == parts.deep_view(),
            joined@ == join_spec(views.take(i as int), sep@),
        decreases parts.len() - i,
    {
        proof {
            let next = views.take(i + 1);
            assert(next.drop_last() =~= views.take(i as int));
            assert(next.last() == parts[i as int]@);
            if i == 0 {
                assert(joined@ + parts[i as int]@ =~= parts[i as int]@);
            }
        }
        if i > 0 {
            joined.append(sep);
        }
        joined.append(parts[i].as_str());
        i += 1;
    }
    proof {
        assert(views.take(parts.len() as int) =~= views);
    }
    joined
}

/// The strings of `items`, last one first.
pub fn reversed(items: Vec<String>) -> (turned: Vec<String>)
    ensures
        turned.deep_view() == items.deep_view().reverse(),
{
    let ghost views = items.deep_view();
    let mut rest = items;
    let mut turned: Vec<String> = Vec::new();
    while rest.len() > 0
        invariant
            rest.len() <= views.len(),
            rest.deep_view() == views.take(rest.len() as int),
            turned.len() == views.len() - rest.len(),
            forall|k: int|
                0 <= k < turned.len() ==> #[trigger] turned.deep_view()[k] == views[views.len() - 1 - k],
        decreases rest.len(),
    {
        let ghost before = rest.deep_view();
        let ghost done = turned.deep_view();
        let last = rest.pop().unwrap();
        turned.push(last);
        proof {
            assert(last@ == before[before.len() - 1]);
            assert(rest.deep_view() =~= views.take(rest.len() as int));
            assert forall|k: int| 0 <= k < turned.len() implies #[trigger] turned.deep_view()[k]
                == views[views.len() - 1 - k] by {
                if k < done.len() {
                    assert(turned.deep_view()[k] == done[k]);
                }
            }
        }
    }
    assert(turned.deep_view() =~= views.reverse());
    turned
}

/// The digit `d` as a one-character string.
fn digit_str(d: usize) -> (s: &'static str)
    requires
        d < 10,
    ensures
        s@ == seq![digit_char(d as nat)],
{
    proof {
        reveal_strlit("0");
        reveal_strlit("1");
        reveal_strlit("2");
        reveal_strlit("3");
        reveal_strlit("4");
        reveal_strlit("5");
        reveal_strlit("6");
        reveal_strlit("7");
        reveal_strlit("8");
        reveal_strlit("9");
    }
    let s = if d == 0 {
        "0"
    } else if d == 1 {
        "1"
    } else if d == 2 {
        "2"
    } else if d == 3 {
        "3"
    } else if d == 4 {
        "4"
    } else if d == 5 {
        "5"
    } else if d == 6 {
        "6"
    } else if d == 7 {
        "7"
    } else if d == 8 {
        "8"
    } else {
        "9"
    };
    assert(s@ =~= seq![digit_char(d as nat)]);
    s
}

/// Writes `n` in base ten.
pub fn decimal(n: usize) -> (digits: String)
    ensures
        digits@ == decimal_spec(n as nat),
    decreases n,
{
    if n < 10 {
        String::from_str(digit_str(n))
    } else {
        let mut digits = decimal(n / 10);
        digits.append(digit_str(n % 10));
        assert(digits@ =~= decimal_spec((n / 10) as nat).push(digit_char((n % 10) as nat)));
        digits
    }
}

} // verus!
