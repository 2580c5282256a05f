use vstd::prelude::*;
use vstd::string::*;

verus! {

/// Unicode upper case of a string, as `str::to_uppercase` computes it.
pub uninterp spec fn to_upper(s: Seq<char>) -> Seq<char>;

/// Unicode lower case of a string, as `str::to_lowercase` computes it.
pub uninterp spec fn to_lower(s: Seq<char>) -> Seq<char>;

/// Every character of `s` is ASCII.
pub open spec fn is_ascii_text(s: Seq<char>) -> bool {
    forall|i: int| 0 <= i < s.len() ==> (#[trigger] s[i] as u32) < 128
}

/// `c` with an ASCII lower-case letter made upper case.
pub open spec fn ascii_upper_char(c: char) -> char {
    if 97 <= (c as u32) <= 122 {
        ((c as u32) - 32) as char
    } else {
        c
    }
}

/// `c` with an ASCII upper-case letter made lower case.
pub open spec fn ascii_lower_char(c: char) -> char {
    if 65 <= (c as u32) <= 90 {
        ((c as u32) + 32) as char
    } else {
        c
    }
}

/// ASCII upper case of a string.
pub open spec fn ascii_upper(s: Seq<char>) -> Seq<char> {
    s.map_values(|c: char| ascii_upper_char(c))
}

/// ASCII lower case of a string.
pub open spec fn ascii_lower(s: Seq<char>) -> Seq<char> {
    s.map_values(|c: char| ascii_lower_char(c))
}

/// On ASCII text, upper-casing gives ASCII text, changes nothing a second
/// time, and undoes lower-casing: a symbol normalises the same whatever case
/// it was written in.
pub proof fn law_ascii_case_normalisation(s: Seq<char>)
    requires
        is_ascii_text(s),
    ensures
        is_ascii_text(ascii_upper(s)),
        is_ascii_text(ascii_lower(s)),
        ascii_upper(ascii_upper(s)) == ascii_upper(s),
        ascii_upper(ascii_lower(s)) == ascii_upper(s),
{
    assert forall|i: int| 0 <= i < s.len() implies (#[trigger] ascii_upper(s)[i] as u32) < 128 by {
        assert((s[i] as u32) < 128);
    }
    assert forall|i: int| 0 <= i < s.len() implies (#[trigger] ascii_lower(s)[i] as u32) < 128 by {
        assert((s[i] as u32) < 128);
    }
    assert(ascii_upper(ascii_upper(s)) =~= ascii_upper(s));
    assert(ascii_upper(ascii_lower(s)) =~= ascii_upper(s));
}

/// The decimal digit for `d` (taken modulo ten).
pub open spec fn digit_char(d: nat) -> char {
    let d = d % 10;
    if d == 0 {
        '0'
    } else if d == 1 {
        '1'
    } else if d == 2 {
        '2'
    } else if d == 3 {
        '3'
    } else if d == 4 {
        '4'
    } else if d == 5 {
        '5'
    } else if d == 6 {
        '6'
    } else if d == 7 {
        '7'
    } else if d == 8 {
        '8'
    } else {
        '9'
    }
}

/// Decimal representation of `n`, without sign or leading zeros.
pub open spec fn decimal(n: nat) -> Seq<char>
    decreases n,
{
    if n < 10 {
        seq![digit_char(n)]
    } else {
        decimal(n / 10).push(digit_char(n % 10))
    }
}

/// `s` left-padded with zeros to at least `width` characters.
pub open spec fn zero_padded(s: Seq<char>, width: nat) -> Seq<char>
    decreases width - s.len(),
{
    if s.len() >= width {
        s
    } else {
        zero_padded(seq!['0'] + s, width)
    }
}

/// Upper case of a string: calls `str::to_uppercase`.
///
/// The result is named (`to_upper`): Unicode case mapping is not written out
/// here. On ASCII text it maps `a`..`z` to `A`..`Z` and keeps every other
/// character, as the Unicode mapping does for ASCII.
#[verifier::external_body]
pub(crate) fn uppercase(s: &str) -> (r: String)
    ensures
        r@ == to_upper(s@),
        is_ascii_text(s@) ==> r@ == ascii_upper(s@),
{
    s.to_uppercase()
}

/// Lower case of a string: calls `str::to_lowercase`.
///
/// The result is named (`to_lower`): Unicode case mapping is not written out
/// here. On ASCII text it maps `A`..`Z` to `a`..`z` and keeps every other
/// character, as the Unicode mapping does for ASCII.
#[verifier::external_body]
pub(crate) fn lowercase(s: &str) -> (r: String)
    ensures
        r@ == to_lower(s@),
        is_ascii_text(s@) ==> r@ == ascii_lower(s@),
{
    s.to_lowercase()
}

/// The text of the decimal digit `d`.
fn digit_str(d: u64) -> (r: &'static str)
    requires
        d < 10,
    ensures
        r@ == seq![digit_char(d as nat)],
{
    proof {
        reveal_strlit("0");
        reveal_strlit("1");
        reveal_strlit("2");
        reveal_strlit("3");
        reveal_strlit("4");
        reveal_strlit("5");
        reveal_strlit("6");
        reveal_strlit("7");
        reveal_strlit("8");
        reveal_strlit("9");
    }
    if d == 0 {
        "0"
    } else if d == 1 {
        "1"
    } else if d == 2 {
        "2"
    } else if d == 3 {
        "3"
    } else if d == 4 {
        "4"
    } else if d == 5 {
        "5"
    } else if d == 6 {
        "6"
    } else if d == 7 {
        "7"
    } else if d == 8 {
        "8"
    } else {
        "9"
    }
}

/// Decimal text of an integer, without sign or leading zeros.
pub(crate) fn decimal_string(n: u64) -> (r: String)
    ensures
        r@ == decimal(n as nat),
    decreases n,
{
    if n < 10 {
        String::from_str(digit_str(n))
    } else {
        let mut r = decimal_string(n / 10);
        r.append(digit_str(n % 10));
        proof {
            assert(r@ =~= decimal((n / 10) as nat).push(digit_char((n % 10) as nat)));
        }
        r
    }
}

/// `s` left-padded with zeros to `width` characters.
pub fn pad_zeros(s: String, width: usize) -> (r: String)
    ensures
        r@ == zero_padded(s@, width as nat),
    decreases width - s@.len(),
{
    if s.as_str().unicode_len() >= width {
        s
    } else {
        let mut z = String::from_str("0");
        proof {
            reveal_strlit("0");
        }
        z.append(s.as_str());
        assert(z@ =~= seq!['0'] + s@);
        pad_zeros(z, width)
    }
}

/// Decimal text of `n`, zero-padded to `width` characters.
pub fn padded_decimal(n: u64, width: usize) -> (r: String)
    ensures
        r@ == zero_padded(decimal(n as nat), width as nat),
{
    pad_zeros(decimal_string(n), width)
}

} // verus!
