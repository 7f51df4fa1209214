//! UTF-8 byte-level facts about Rust strings used by the protocol and application layers.

use vstd::prelude::*;
use vstd::utf8::*;

verus! {

/// The UTF-8 encoding of a character sequence, as Rust stores it.
pub open spec fn utf8(chars: Seq<char>) -> Seq<u8> {
    encode_utf8(chars)
}

/// Encoding distributes over concatenation.
pub proof fn lemma_utf8_concat(a: Seq<char>, b: Seq<char>)
    ensures
        utf8(a + b) == utf8(a) + utf8(b),
    decreases a.len(),
{
    if a.len() == 0 {
        assert(a + b =~= b);
        assert(utf8(a) =~= Seq::<u8>::empty());
        assert(utf8(a) + utf8(b) =~= utf8(b));
    } else {
        assert((a + b).drop_first() =~= a.drop_first() + b);
        assert((a + b)[0] == a[0]);
        lemma_utf8_concat(a.drop_first(), b);
        assert(utf8(a + b) =~= utf8(a) + utf8(b));
    }
}

/// Every Rust string is valid UTF-8.
pub proof fn lemma_utf8_valid(chars: Seq<char>)
    ensures
        valid_utf8(utf8(chars)),
        is_char_boundary(utf8(chars), 0),
        is_char_boundary(utf8(chars), utf8(chars).len() as int),
{
    encode_utf8_valid_utf8(chars);
    is_char_boundary_start_end_of_seq(utf8(chars));
}

/// Byte length of a string.
pub fn str_len(s: &str) -> (n: usize)
    ensures
        n == utf8(s@).len(),
{
    let bytes = s.as_bytes();
    bytes.len()
}

/// Whether `index` lies on a character boundary of `s`.
pub fn str_is_boundary(s: &str, index: usize) -> (b: bool)
    ensures
        b == is_char_boundary(utf8(s@), index as int),
{
    s.is_char_boundary(index)
}

} // verus!

verus! {

/// Two valid byte strings that agree up to a shared boundary `k` agree on every boundary below it.
pub proof fn lemma_boundary_shared_prefix(x: Seq<u8>, y: Seq<u8>, k: int, i: int)
    requires
        valid_utf8(x),
        valid_utf8(y),
        0 <= i <= k,
        k <= x.len(),
        k <= y.len(),
        x.subrange(0, k) == y.subrange(0, k),
        is_char_boundary(x, k),
        is_char_boundary(y, k),
    ensures
        is_char_boundary(x, i) <==> is_char_boundary(y, i),
{
    if i < k {
        assert(x[i] == x.subrange(0, k)[i]);
        assert(y[i] == y.subrange(0, k)[i]);
        is_char_boundary_iff_not_is_continuation_byte(x, i);
        is_char_boundary_iff_not_is_continuation_byte(y, i);
    }
}

/// A boundary at or after `s` in a string is a boundary of its suffix starting at boundary `s`.
pub proof fn lemma_boundary_in_suffix(x: Seq<u8>, s: int, e: int)
    requires
        valid_utf8(x),
        0 <= s <= e <= x.len(),
        is_char_boundary(x, s),
        is_char_boundary(x, e),
    ensures
        valid_utf8(x.subrange(s, x.len() as int)),
        is_char_boundary(x.subrange(s, x.len() as int), e - s),
{
    let rest = x.subrange(s, x.len() as int);
    valid_utf8_split(x, s);
    is_char_boundary_start_end_of_seq(rest);
    if e < x.len() {
        assert(rest[e - s] == x[e]);
        is_char_boundary_iff_not_is_continuation_byte(x, e);
        is_char_boundary_iff_not_is_continuation_byte(rest, e - s);
    }
}

/// Replaces byte range `start..end` of `text` (both character boundaries) by `replacement`.
pub fn splice_str(text: &str, start: usize, end: usize, replacement: &str) -> (r: String)
    requires
        start <= end <= utf8(text@).len(),
        is_char_boundary(utf8(text@), start as int),
        is_char_boundary(utf8(text@), end as int),
    ensures
        utf8(r@) == utf8(text@).subrange(0, start as int) + utf8(replacement@)
            + utf8(text@).subrange(end as int, utf8(text@).len() as int),
{
    let ghost bytes = utf8(text@);
    proof {
        lemma_utf8_valid(text@);
        lemma_boundary_in_suffix(bytes, start as int, end as int);
    }
    let (prefix, rest) = text.split_at(start);
    proof {
        assert(utf8(rest@) == bytes.subrange(start as int, bytes.len() as int));
    }
    let (_, suffix) = rest.split_at(end - start);
    let mut out = prefix.to_owned();
    out.append(replacement);
    out.append(suffix);
    proof {
        lemma_utf8_concat(prefix@ + replacement@, suffix@);
        lemma_utf8_concat(prefix@, replacement@);
        assert(out@ == prefix@ + replacement@ + suffix@);
        let rb = bytes.subrange(start as int, bytes.len() as int);
        assert(utf8(suffix@) =~= rb.subrange((end - start) as int, rb.len() as int));
        assert(utf8(suffix@) =~= bytes.subrange(end as int, bytes.len() as int));
    }
    out
}

/// The decimal digit character for `d < 10`.
pub open spec fn digit_char(d: nat) -> char {
    if d == 0 {
        '0'
    } else if d == 1 {
        '1'
    } else if d == 2 {
        '2'
    } else if d == 3 {
        '3'
    } else if d == 4 {
        '4'
    } else if d == 5 {
        '5'
    } else if d == 6 {
        '6'
    } else if d == 7 {
        '7'
    } else if d == 8 {
        '8'
    } else {
        '9'
    }
}

pub open spec fn is_digit(c: char) -> bool {
    c == '0' || c == '1' || c == '2' || c == '3' || c == '4' || c == '5' || c == '6' || c == '7' || c == '8' || c == '9'
}

pub proof fn lemma_decimal_digits(n: nat)
    ensures
        decimal(n).len() >= 1,
        n >= 10 ==> decimal(n).len() >= 2,
        forall|k: int| 0 <= k < decimal(n).len() ==> is_digit(#[trigger] decimal(n)[k]),
    decreases n,
{
    if n >= 10 {
        lemma_decimal_digits(n / 10);
        assert(decimal(n) == decimal(n / 10).push(digit_char(n % 10)));
    }
}

pub proof fn lemma_decimal_injective(n: nat, m: nat)
    requires
        decimal(n) == decimal(m),
    ensures
        n == m,
    decreases n,
{
    lemma_decimal_digits(n);
    lemma_decimal_digits(m);
    if n < 10 && m < 10 {
        assert(decimal(n)[0] == digit_char(n));
        assert(decimal(m)[0] == digit_char(m));
    } else if n >= 10 && m >= 10 {
        let dn = decimal(n);
        assert(dn == decimal(n / 10).push(digit_char(n % 10)));
        assert(decimal(m) == decimal(m / 10).push(digit_char(m % 10)));
        assert(dn.last() == digit_char(n % 10));
        assert(decimal(m).last() == digit_char(m % 10));
        assert(n % 10 == m % 10);
        assert(decimal(n / 10) =~= dn.drop_last());
        assert(decimal(m / 10) =~= decimal(m).drop_last());
        lemma_decimal_injective(n / 10, m / 10);
    }
}

/// The decimal rendering of `n`, without leading zeros.
pub open spec fn decimal(n: nat) -> Seq<char>
    decreases n,
{
    if n < 10 {
        seq![digit_char(n)]
    } else {
        decimal(n / 10).push(digit_char(n % 10))
    }
}

/// The one-character text of a decimal digit.
fn digit_text(d: u64) -> (s: &'static str)
    requires
        d < 10,
    ensures
        s@ == seq![digit_char(d as nat)],
{
    proof {
        reveal_strlit("0");
        reveal_strlit("1");
        reveal_strlit("2");
        reveal_strlit("3");
        reveal_strlit("4");
        reveal_strlit("5");
        reveal_strlit("6");
        reveal_strlit("7");
        reveal_strlit("8");
        reveal_strlit("9");
    }
    if d == 0 {
        "0"
    } else if d == 1 {
        "1"
    } else if d == 2 {
        "2"
    } else if d == 3 {
        "3"
    } else if d == 4 {
        "4"
    } else if d == 5 {
        "5"
    } else if d == 6 {
        "6"
    } else if d == 7 {
        "7"
    } else if d == 8 {
        "8"
    } else {
        "9"
    }
}

/// The decimal rendering of `n`.
pub(crate) fn decimal_string(n: u64) -> (s: String)
    ensures
        s@ == decimal(n as nat),
{
    let mut s = String::new();
    push_decimal(&mut s, n);
    s
}

/// Appends `t`.
pub(crate) fn push_text(s: &mut String, t: &str)
    ensures
        final(s)@ == old(s)@ + t@,
{
    s.append(t);
}

/// Appends the decimal rendering of `n`.
pub(crate) fn push_decimal(m: &mut String, n: u64)
    ensures
        final(m)@ == old(m)@ + decimal(n as nat),
    decreases n,
{
    if n >= 10 {
        push_decimal(m, n / 10);
    }
    push_text(m, digit_text(n % 10));
    proof {
        if n < 10 {
            assert(old(m)@ + decimal(n as nat) =~= old(m)@ + seq![digit_char((n % 10) as nat)]);
        } else {
            assert(old(m)@ + decimal(n as nat) =~= old(m)@ + decimal((n / 10) as nat) + seq![digit_char((n % 10) as nat)]);
        }
    }
}

/// The lowercase hexadecimal digit for `d < 16`.
pub open spec fn hex_digit(d: nat) -> char {
    if d < 10 {
        digit_char(d)
    } else if d == 10 {
        'a'
    } else if d == 11 {
        'b'
    } else if d == 12 {
        'c'
    } else if d == 13 {
        'd'
    } else if d == 14 {
        'e'
    } else {
        'f'
    }
}

/// A byte as two lowercase hexadecimal digits (`{:02x}`).
pub open spec fn hex2(b: u8) -> Seq<char> {
    seq![hex_digit(b as nat / 16), hex_digit(b as nat % 16)]
}

fn hex_digit_text(d: u8) -> (s: &'static str)
    requires
        d < 16,
    ensures
        s@ == seq![hex_digit(d as nat)],
{
    match d {
        0 => {
            proof {
                reveal_strlit("0");
            }
            "0"
        },
        1 => {
            proof {
                reveal_strlit("1");
            }
            "1"
        },
        2 => {
            proof {
                reveal_strlit("2");
            }
            "2"
        },
        3 => {
            proof {
                reveal_strlit("3");
            }
            "3"
        },
        4 => {
            proof {
                reveal_strlit("4");
            }
            "4"
        },
        5 => {
            proof {
                reveal_strlit("5");
            }
            "5"
        },
        6 => {
            proof {
                reveal_strlit("6");
            }
            "6"
        },
        7 => {
            proof {
                reveal_strlit("7");
            }
            "7"
        },
        8 => {
            proof {
                reveal_strlit("8");
            }
            "8"
        },
        9 => {
            proof {
                reveal_strlit("9");
            }
            "9"
        },
        10 => {
            proof {
                reveal_strlit("a");
            }
            "a"
        },
        11 => {
            proof {
                reveal_strlit("b");
            }
            "b"
        },
        12 => {
            proof {
                reveal_strlit("c");
            }
            "c"
        },
        13 => {
            proof {
                reveal_strlit("d");
            }
            "d"
        },
        14 => {
            proof {
                reveal_strlit("e");
            }
            "e"
        },
        _ => {
            proof {
                reveal_strlit("f");
            }
            "f"
        },
    }
}

/// Appends a byte as two lowercase hexadecimal digits.
pub(crate) fn push_hex2(m: &mut String, b: u8)
    ensures
        final(m)@ == old(m)@ + hex2(b),
{
    push_text(m, hex_digit_text(b / 16));
    push_text(m, hex_digit_text(b % 16));
    assert(m@ =~= old(m)@ + hex2(b));
}

/// Bytes as consecutive two-digit lowercase hexadecimal.
pub open spec fn hex_bytes(bytes: Seq<u8>) -> Seq<char>
    decreases bytes.len(),
{
    if bytes.len() == 0 {
        Seq::empty()
    } else {
        hex_bytes(bytes.drop_last()) + hex2(bytes.last())
    }
}

/// Appends bytes as consecutive two-digit lowercase hexadecimal.
pub(crate) fn push_hex_bytes(m: &mut String, bytes: &[u8])
    ensures
        final(m)@ == old(m)@ + hex_bytes(bytes@),
{
    let ghost start = m@;
    let mut i: usize = 0;
    proof {
        assert(bytes@.subrange(0, 0) =~= Seq::<u8>::empty());
    }
    while i < bytes.len()
        invariant
            0 <= i <= bytes@.len(),
            m@ == start + hex_bytes(bytes@.subrange(0, i as int)),
        decreases bytes@.len() - i,
    {
        push_hex2(m, bytes[i]);
        proof {
            assert(bytes@.subrange(0, i as int + 1).drop_last() =~= bytes@.subrange(0, i as int));
            assert(m@ =~= start + hex_bytes(bytes@.subrange(0, i as int + 1)));
        }
        i = i + 1;
    }
    proof {
        assert(bytes@.subrange(0, bytes@.len() as int) =~= bytes@);
    }
}

} // verus!
