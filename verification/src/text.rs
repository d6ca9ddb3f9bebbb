//! Text helpers of the wire protocol: white space, trimming, decimal numbers
//! and the decoding of received bytes.

use vstd::prelude::*;
use vstd::std_specs::iter::IteratorSpec;
use vstd::string::StringSliceAdditionalSpecFns;
use vstd::utf8::valid_utf8;

verus! {

/// The characters with the Unicode property `White_Space`.
pub open spec fn is_space(c: char) -> bool {
    let u = c as u32;
    ||| 0x09 <= u <= 0x0D
    ||| u == 0x20
    ||| u == 0x85
    ||| u == 0xA0
    ||| u == 0x1680
    ||| 0x2000 <= u <= 0x200A
    ||| u == 0x2028
    ||| u == 0x2029
    ||| u == 0x202F
    ||| u == 0x205F
    ||| u == 0x3000
}

/// Tells whether `c` is white space.
pub fn is_space_char(c: char) -> (b: bool)
    ensures
        b == is_space(c),
{
    let u: u32 = c as u32;
    (0x09 <= u && u <= 0x0D) || u == 0x20 || u == 0x85 || u == 0xA0 || u == 0x1680 || (0x2000 <= u
        && u <= 0x200A) || u == 0x2028 || u == 0x2029 || u == 0x202F || u == 0x205F || u == 0x3000
}

/// How many white-space characters `s` starts with.
pub open spec fn leading_spaces(s: Seq<char>) -> nat
    decreases s.len(),
{
    if s.len() > 0 && is_space(s.first()) {
        1 + leading_spaces(s.drop_first())
    } else {
        0
    }
}

/// How many white-space characters `s` ends with.
pub open spec fn trailing_spaces(s: Seq<char>) -> nat
    decreases s.len(),
{
    if s.len() > 0 && is_space(s.last()) {
        1 + trailing_spaces(s.drop_last())
    } else {
        0
    }
}

/// `s` without its leading and trailing white space.
pub open spec fn trimmed(s: Seq<char>) -> Seq<char> {
    let rest = s.skip(leading_spaces(s) as int);
    rest.take(rest.len() - trailing_spaces(rest))
}

/// A sequence that starts with `k` white-space characters and then ends or
/// goes on with another character has exactly `k` leading spaces.
pub proof fn lemma_leading_spaces(s: Seq<char>, k: int)
    requires
        0 <= k <= s.len(),
        forall|j: int| 0 <= j < k ==> is_space(#[trigger] s[j]),
        k < s.len() ==> !is_space(s[k]),
    ensures
        leading_spaces(s) == k,
    decreases k,
{
    if k > 0 {
        let rest = s.drop_first();
        assert forall|j: int| 0 <= j < k - 1 implies is_space(#[trigger] rest[j]) by {
            assert(rest[j] == s[j + 1]);
        }
        lemma_leading_spaces(rest, k - 1);
    }
}

/// A sequence that ends with `k` white-space characters, before which it is
/// empty or holds another character, has exactly `k` trailing spaces.
pub proof fn lemma_trailing_spaces(s: Seq<char>, k: int)
    requires
        0 <= k <= s.len(),
        forall|j: int| s.len() - k <= j < s.len() ==> is_space(#[trigger] s[j]),
        k < s.len() ==> !is_space(s[s.len() - k - 1]),
    ensures
        trailing_spaces(s) == k,
    decreases k,
{
    if k > 0 {
        let rest = s.drop_last();
        assert forall|j: int| rest.len() - (k - 1) <= j < rest.len() implies is_space(
            #[trigger] rest[j],
        ) by {
            assert(rest[j] == s[j]);
        }
        lemma_trailing_spaces(rest, k - 1);
    }
}

/// Where the characters before `from` and from `to` on are white space, and
/// the range between them is empty or starts and ends with other characters,
/// that range is the trimmed text.
pub proof fn lemma_trimmed_range(s: Seq<char>, from: int, to: int)
    requires
        0 <= from <= to <= s.len(),
        forall|j: int| 0 <= j < from ==> is_space(#[trigger] s[j]),
        forall|j: int| to <= j < s.len() ==> is_space(#[trigger] s[j]),
        from < to ==> !is_space(s[from]) && !is_space(s[to - 1]),
        from == to ==> to == s.len(),
    ensures
        trimmed(s) == s.subrange(from, to),
{
    lemma_leading_spaces(s, from);
    let rest = s.skip(from);
    assert forall|j: int| rest.len() - (s.len() - to) <= j < rest.len() implies is_space(
        #[trigger] rest[j],
    ) by {
        assert(rest[j] == s[j + from]);
    }
    lemma_trailing_spaces(rest, s.len() - to);
    assert(rest.take(rest.len() - (s.len() - to)) =~= s.subrange(from, to));
}

/// The leading spaces of a sequence are white space, and the character after
/// them, if there is one, is not.
pub proof fn lemma_leading_spaces_end(s: Seq<char>)
    ensures
        leading_spaces(s) <= s.len(),
        forall|j: int| 0 <= j < leading_spaces(s) ==> is_space(#[trigger] s[j]),
        leading_spaces(s) < s.len() ==> !is_space(s[leading_spaces(s) as int]),
    decreases s.len(),
{
    if s.len() > 0 && is_space(s.first()) {
        let rest = s.drop_first();
        lemma_leading_spaces_end(rest);
        assert forall|j: int| 0 <= j < leading_spaces(s) implies is_space(#[trigger] s[j]) by {
            if j > 0 {
                assert(s[j] == rest[j - 1]);
            }
        }
        if leading_spaces(s) < s.len() {
            assert(s[leading_spaces(s) as int] == rest[leading_spaces(rest) as int]);
        }
    }
}

/// The trailing spaces of a sequence are white space, and the character
/// before them, if there is one, is not.
pub proof fn lemma_trailing_spaces_start(s: Seq<char>)
    ensures
        trailing_spaces(s) <= s.len(),
        forall|j: int| s.len() - trailing_spaces(s) <= j < s.len() ==> is_space(#[trigger] s[j]),
        trailing_spaces(s) < s.len() ==> !is_space(s[s.len() - trailing_spaces(s) - 1]),
    decreases s.len(),
{
    if s.len() > 0 && is_space(s.last()) {
        let rest = s.drop_last();
        lemma_trailing_spaces_start(rest);
        assert forall|j: int| s.len() - trailing_spaces(s) <= j < s.len() implies is_space(
            #[trigger] s[j],
        ) by {
            if j < s.len() - 1 {
                assert(s[j] == rest[j]);
            }
        }
        if trailing_spaces(s) < s.len() {
            assert(s[s.len() - trailing_spaces(s) - 1] == rest[rest.len() - trailing_spaces(rest)
                - 1]);
        }
    }
}

/// The trimmed text is a range of the text, with white space alone before
/// and after it, and it neither starts nor ends with white space.
pub proof fn lemma_trimmed_is_range(s: Seq<char>) -> (range: (int, int))
    ensures
        0 <= range.0 <= range.1 <= s.len(),
        trimmed(s) == s.subrange(range.0, range.1),
        forall|j: int| 0 <= j < range.0 ==> is_space(#[trigger] s[j]),
        forall|j: int| range.1 <= j < s.len() ==> is_space(#[trigger] s[j]),
        range.0 < range.1 ==> !is_space(s[range.0]) && !is_space(s[range.1 - 1]),
        range.0 == range.1 ==> range.1 == s.len(),
        trimmed(s).len() > 0 ==> !is_space(trimmed(s).first()) && !is_space(trimmed(s).last()),
{
    lemma_leading_spaces_end(s);
    let from = leading_spaces(s) as int;
    let rest = s.skip(from);
    lemma_trailing_spaces_start(rest);
    let to = s.len() - trailing_spaces(rest);
    if from < s.len() {
        assert(rest[0] == s[from]);
        if trailing_spaces(rest) == rest.len() {
            assert(is_space(rest[0]));
        }
        assert(rest[rest.len() - trailing_spaces(rest) - 1] == s[to - 1]);
    }
    assert forall|j: int| to <= j < s.len() implies is_space(#[trigger] s[j]) by {
        assert(s[j] == rest[j - from]);
    }
    assert(rest.take(rest.len() - trailing_spaces(rest)) =~= s.subrange(from, to));
    (from, to)
}

/// White space around a text does not change what is left after trimming.
pub proof fn lemma_trim_ignores_padding(left: Seq<char>, s: Seq<char>, right: Seq<char>)
    requires
        forall|j: int| 0 <= j < left.len() ==> is_space(#[trigger] left[j]),
        forall|j: int| 0 <= j < right.len() ==> is_space(#[trigger] right[j]),
    ensures
        trimmed(left + s + right) == trimmed(s),
{
    let whole = left + s + right;
    let (from, to) = lemma_trimmed_is_range(s);
    if from == to {
        assert forall|j: int| 0 <= j < whole.len() implies is_space(#[trigger] whole[j]) by {
            if left.len() <= j < left.len() + s.len() {
                assert(whole[j] == s[j - left.len()]);
            } else if j >= left.len() + s.len() {
                assert(whole[j] == right[j - left.len() - s.len()]);
            } else {
                assert(whole[j] == left[j]);
            }
        }
        lemma_trimmed_range(whole, whole.len() as int, whole.len() as int);
        assert(whole.subrange(whole.len() as int, whole.len() as int) =~= s.subrange(from, to));
    } else {
        let a = left.len() + from;
        let b = left.len() + to;
        assert forall|j: int| 0 <= j < a implies is_space(#[trigger] whole[j]) by {
            if j < left.len() {
                assert(whole[j] == left[j]);
            } else {
                assert(whole[j] == s[j - left.len()]);
            }
        }
        assert forall|j: int| b <= j < whole.len() implies is_space(#[trigger] whole[j]) by {
            if j < left.len() + s.len() {
                assert(whole[j] == s[j - left.len()]);
            } else {
                assert(whole[j] == right[j - left.len() - s.len()]);
            }
        }
        assert(whole[a] == s[from]);
        assert(whole[b - 1] == s[to - 1]);
        lemma_trimmed_range(whole, a, b);
        assert(whole.subrange(a, b) =~= s.subrange(from, to));
    }
}

/// Trimming what is trimmed changes nothing.
pub proof fn lemma_trim_twice(s: Seq<char>)
    ensures
        trimmed(trimmed(s)) == trimmed(s),
{
    let (from, to) = lemma_trimmed_is_range(s);
    let t = trimmed(s);
    if t.len() == 0 {
        lemma_trimmed_range(t, 0, 0);
        assert(t.subrange(0, 0) =~= t);
    } else {
        lemma_trimmed_range(t, 0, t.len() as int);
        assert(t.subrange(0, t.len() as int) =~= t);
    }
}

/// Removes the white space at both ends of `s`.
pub fn trim(s: &str) -> (r: &str)
    ensures
        r@ == trimmed(s@),
{
    let n = s.unicode_len();
    let mut it = s.chars();
    let mut i: usize = 0;
    let mut from: usize = 0;
    let mut to: usize = 0;
    let mut found = false;
    loop
        invariant
            n == s@.len(),
            i <= n,
            it.remaining() == s@.skip(i as int),
            !found ==> from == 0 && to == 0,
            !found ==> forall|j: int| 0 <= j < i ==> is_space(#[trigger] s@[j]),
            found ==> from < to <= i,
            found ==> forall|j: int| 0 <= j < from ==> is_space(#[trigger] s@[j]),
            found ==> forall|j: int| to <= j < i ==> is_space(#[trigger] s@[j]),
            found ==> !is_space(s@[from as int]) && !is_space(s@[to - 1]),
        ensures
            i == n,
        decreases n - i,
    {
        match it.next() {
            Some(c) => {
                assert(c == s@[i as int]);
                if !is_space_char(c) {
                    if !found {
                        from = i;
                        found = true;
                    }
                    to = i + 1;
                }
                i = i + 1;
                assert(s@.skip(i - 1).drop_first() =~= s@.skip(i as int));
            },
            None => {
                break ;
            },
        }
    }
    if found {
        proof {
            lemma_trimmed_range(s@, from as int, to as int);
        }
        s.substring_char(from, to)
    } else {
        proof {
            lemma_trimmed_range(s@, n as int, n as int);
        }
        s.substring_char(n, n)
    }
}

/// The decimal digit for `d`, where `d` is below ten.
pub open spec fn digit(d: nat) -> char {
    if d == 0 {
        '0'
    } else if d == 1 {
        '1'
    } else if d == 2 {
        '2'
    } else if d == 3 {
        '3'
    } else if d == 4 {
        '4'
    } else if d == 5 {
        '5'
    } else if d == 6 {
        '6'
    } else if d == 7 {
        '7'
    } else if d == 8 {
        '8'
    } else {
        '9'
    }
}

/// `n` in decimal notation, without sign or leading zeros.
pub open spec fn decimal(n: nat) -> Seq<char>
    decreases n,
{
    if n < 10 {
        seq![digit(n)]
    } else {
        decimal(n / 10).push(digit(n % 10))
    }
}

fn digit_text(d: usize) -> (r: &'static str)
    requires
        d < 10,
    ensures
        r@ == seq![digit(d as nat)],
{
    proof {
        reveal_strlit("0");
        reveal_strlit("1");
        reveal_strlit("2");
        reveal_strlit("3");
        reveal_strlit("4");
        reveal_strlit("5");
        reveal_strlit("6");
        reveal_strlit("7");
        reveal_strlit("8");
        reveal_strlit("9");
    }
    let r = if d == 0 {
        "0"
    } else if d == 1 {
        "1"
    } else if d == 2 {
        "2"
    } else if d == 3 {
        "3"
    } else if d == 4 {
        "4"
    } else if d == 5 {
        "5"
    } else if d == 6 {
        "6"
    } else if d == 7 {
        "7"
    } else if d == 8 {
        "8"
    } else {
        "9"
    };
    assert(r@ =~= seq![digit(d as nat)]);
    r
}

/// Appends `n` in decimal notation to `out`.
pub fn push_decimal(out: &mut String, n: usize)
    ensures
        final(out)@ == old(out)@ + decimal(n as nat),
    decreases n,
{
    if n >= 10 {
        push_decimal(out, n / 10);
    }
    out.append(digit_text(n % 10));
    assert(out@ =~= old(out)@ + decimal(n as nat));
}

/// `std::str::from_utf8`: the text that `bytes` encodes. The result is `Some`
/// exactly when the bytes are valid UTF-8, and the text then has those bytes
/// as its encoding.
#[verifier::external_body]
pub(crate) fn decode(bytes: &[u8]) -> (r: Option<&str>)
    ensures
        r is Some <==> valid_utf8(bytes@),
        r matches Some(text) ==> text.spec_bytes() == bytes@,
{
    match std::str::from_utf8(bytes) {
        Ok(text) => Some(text),
        Err(_) => None,
    }
}

} // verus!
