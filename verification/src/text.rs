//! Text of messages.

use crate::ipv4::Ipv4Addr;
use vstd::prelude::*;
use vstd::string::{StrSliceExecFns, StringExecFns};

verus! {

/// A decimal digit, written.
pub open spec fn digit_text(d: int) -> Seq<char> {
    if d == 0 {
        "0"@
    } else if d == 1 {
        "1"@
    } else if d == 2 {
        "2"@
    } else if d == 3 {
        "3"@
    } else if d == 4 {
        "4"@
    } else if d == 5 {
        "5"@
    } else if d == 6 {
        "6"@
    } else if d == 7 {
        "7"@
    } else if d == 8 {
        "8"@
    } else {
        "9"@
    }
}

/// A number written in decimal, without leading zeros.
pub open spec fn decimal(n: nat) -> Seq<char>
    decreases n,
{
    if n < 10 {
        digit_text(n as int)
    } else {
        decimal(n / 10) + digit_text((n % 10) as int)
    }
}

/// Appends a digit.
fn append_digit(s: &mut String, d: u64)
    requires
        d < 10,
    ensures
        final(s)@ == old(s)@ + digit_text(d as int),
{
    let t: &str = match d {
        0 => "0",
        1 => "1",
        2 => "2",
        3 => "3",
        4 => "4",
        5 => "5",
        6 => "6",
        7 => "7",
        8 => "8",
        _ => "9",
    };
    s.append(t);
}

/// Appends a number in decimal.
pub fn append_decimal(s: &mut String, n: u64)
    ensures
        final(s)@ == old(s)@ + decimal(n as nat),
    decreases n,
{
    let ghost before = s@;
    if n < 10 {
        append_digit(s, n);
    } else {
        append_decimal(s, n / 10);
        append_digit(s, n % 10);
        assert(s@ =~= before + decimal(n as nat));
    }
}

/// `text` followed by a number.
pub fn with_number(text: &str, n: u64) -> (r: String)
    ensures
        r@ == text@ + decimal(n as nat),
{
    let mut r: String = text.to_owned();
    append_decimal(&mut r, n);
    r
}

/// An address in dotted form.
pub open spec fn dotted(a: Ipv4Addr) -> Seq<char> {
    decimal((a.bits / 16777216) as nat) + "."@ + decimal(((a.bits / 65536) % 256) as nat) + "."@
        + decimal(((a.bits / 256) % 256) as nat) + "."@ + decimal((a.bits % 256) as nat)
}

/// Appends an address in dotted form.
pub fn append_dotted(s: &mut String, a: Ipv4Addr)
    ensures
        final(s)@ == old(s)@ + dotted(a),
{
    let ghost before = s@;
    append_decimal(s, (a.bits / 16777216) as u64);
    s.append(".");
    append_decimal(s, ((a.bits / 65536) % 256) as u64);
    s.append(".");
    append_decimal(s, ((a.bits / 256) % 256) as u64);
    s.append(".");
    append_decimal(s, (a.bits % 256) as u64);
    assert(s@ =~= before + dotted(a));
}

/// The character has the Unicode property White_Space.
pub open spec fn white_space(c: char) -> bool {
    let n = c as u32;
    ||| 0x9 <= n <= 0xd
    ||| n == 0x20
    ||| n == 0x85
    ||| n == 0xa0
    ||| n == 0x1680
    ||| 0x2000 <= n <= 0x200a
    ||| n == 0x2028
    ||| n == 0x2029
    ||| n == 0x202f
    ||| n == 0x205f
    ||| n == 0x3000
}

/// See [`white_space`].
fn is_white(c: char) -> (r: bool)
    ensures
        r == white_space(c),
{
    let n: u32 = c as u32;
    (0x9 <= n && n <= 0xd) || n == 0x20 || n == 0x85 || n == 0xa0 || n == 0x1680 || (0x2000 <= n
        && n <= 0x200a) || n == 0x2028 || n == 0x2029 || n == 0x202f || n == 0x205f || n == 0x3000
}

/// The place of the first character that is not white space, or the length.
pub open spec fn trim_start(s: Seq<char>) -> int
    decreases s.len(),
{
    if s.len() == 0 || !white_space(s[0]) {
        0
    } else {
        1 + trim_start(s.drop_first())
    }
}

/// The text without white space at its end.
pub open spec fn trim_end(s: Seq<char>) -> Seq<char>
    decreases s.len(),
{
    if s.len() == 0 || !white_space(s.last()) {
        s
    } else {
        trim_end(s.drop_last())
    }
}

/// The text without white space at either end.
pub open spec fn trimmed(s: Seq<char>) -> Seq<char> {
    trim_end(s.skip(trim_start(s)))
}

/// See [`trimmed`].
pub fn trim(s: &str) -> (r: &str)
    ensures
        r@ == trimmed(s@),
{
    let n: usize = s.unicode_len();
    let mut i: usize = 0;
    assert(s@.skip(0) =~= s@);
    while i < n && is_white(s.get_char(i))
        invariant
            i <= n,
            n == s@.len(),
            trim_start(s@) == i + trim_start(s@.skip(i as int)),
        decreases n - i,
    {
        assert(s@.skip(i as int).drop_first() =~= s@.skip(i as int + 1));
        i = i + 1;
    }
    assert(trim_start(s@) == i) by {
        let t = s@.skip(i as int);
        if i < n {
            assert(t[0] == s@[i as int]);
        }
    }
    let mut j: usize = n;
    assert(s@.subrange(i as int, n as int) =~= s@.skip(i as int));
    while j > i && is_white(s.get_char(j - 1))
        invariant
            i <= j <= n,
            n == s@.len(),
            trim_end(s@.subrange(i as int, j as int)) == trim_end(s@.skip(i as int)),
        decreases j,
    {
        let ghost t = s@.subrange(i as int, j as int);
        assert(t.drop_last() =~= s@.subrange(i as int, j - 1));
        assert(t.last() == s@[j - 1]);
        j = j - 1;
    }
    assert(trim_end(s@.subrange(i as int, j as int)) == s@.subrange(i as int, j as int)) by {
        let t = s@.subrange(i as int, j as int);
        if j > i {
            assert(t.last() == s@[j - 1]);
        }
    }
    s.substring_char(i, j)
}

/// The text begins with `p`.
pub open spec fn begins(s: Seq<char>, p: Seq<char>) -> bool {
    p.len() <= s.len() && s.take(p.len() as int) == p
}

/// See [`begins`].
pub fn starts_with(s: &str, p: &str) -> (r: bool)
    ensures
        r == begins(s@, p@),
{
    let n: usize = p.unicode_len();
    if s.unicode_len() < n {
        return false;
    }
    let mut i: usize = 0;
    while i < n
        invariant
            i <= n,
            n == p@.len(),
            n <= s@.len(),
            forall|k: int| 0 <= k < i ==> s@[k] == p@[k],
        decreases n - i,
    {
        if s.get_char(i) != p.get_char(i) {
            assert(s@.take(n as int)[i as int] != p@[i as int]);
            return false;
        }
        i = i + 1;
    }
    assert(s@.take(n as int) =~= p@);
    true
}

/// The character in upper case, if it is an ASCII letter.
pub open spec fn upper(c: char) -> char {
    if 'a' <= c <= 'z' {
        ((c as u32) - 32) as char
    } else {
        c
    }
}

/// The text with its ASCII letters in upper case.
pub open spec fn upper_text(s: Seq<char>) -> Seq<char> {
    Seq::new(s.len(), |i: int| upper(s[i]))
}

/// `str::to_ascii_uppercase` maps the letters `a` to `z` to `A` to `Z` and leaves every
/// other character alone.
pub assume_specification[ str::to_ascii_uppercase ](s: &str) -> (r: String)
    ensures
        r@ == upper_text(s@),
;

/// The character is an ASCII letter or digit.
pub open spec fn is_alphanumeric(c: char) -> bool {
    'a' <= c <= 'z' || 'A' <= c <= 'Z' || '0' <= c <= '9'
}

/// Every character is an ASCII letter or digit.
pub open spec fn all_alphanumeric(s: Seq<char>) -> bool {
    forall|i: int| 0 <= i < s.len() ==> is_alphanumeric(#[trigger] s[i])
}

/// See [`all_alphanumeric`].
pub fn ascii_alphanumeric(s: &str) -> (r: bool)
    ensures
        r == all_alphanumeric(s@),
{
    let n: usize = s.unicode_len();
    let mut i: usize = 0;
    while i < n
        invariant
            i <= n,
            n == s@.len(),
            forall|k: int| 0 <= k < i ==> is_alphanumeric(#[trigger] s@[k]),
        decreases n - i,
    {
        let c: char = s.get_char(i);
        let ok: bool = ('a' <= c && c <= 'z') || ('A' <= c && c <= 'Z') || ('0' <= c && c <= '9');
        if !ok {
            assert(!is_alphanumeric(s@[i as int]));
            return false;
        }
        i = i + 1;
    }
    true
}

/// What the standard formatter writes for a string in debug form: in double quotes, with
/// the characters escaped that need it.
pub uninterp spec fn debug_text(s: Seq<char>) -> Seq<char>;

/// The debug form of a string, as `format!` with `{:?}` writes it. It depends on the string
/// alone.
#[verifier::external_body]
pub(crate) fn quoted(s: &str) -> (r: String)
    ensures
        r@ == debug_text(s@),
{
    format!("{:?}", s)
}

/// What a row of characters stands for when each is read as a decimal digit.
pub open spec fn reading(s: Seq<char>) -> int
    decreases s.len(),
{
    if s.len() == 0 {
        0
    } else {
        10 * reading(s.drop_last()) + (s.last() as int - 48)
    }
}

proof fn lemma_digit(d: int)
    requires
        0 <= d <= 9,
    ensures
        digit_text(d).len() == 1,
        digit_text(d)[0] as int == 48 + d,
{
    reveal_strlit("0");
    reveal_strlit("1");
    reveal_strlit("2");
    reveal_strlit("3");
    reveal_strlit("4");
    reveal_strlit("5");
    reveal_strlit("6");
    reveal_strlit("7");
    reveal_strlit("8");
    reveal_strlit("9");
}

/// A written number reads back as the number, holds digits only, and has no leading zero unless
/// it is zero itself.
pub proof fn law_decimal_reads_back(n: nat)
    ensures
        reading(decimal(n)) == n,
        decimal(n).len() > 0,
        forall|i: int|
            0 <= i < decimal(n).len() ==> 48 <= #[trigger] decimal(n)[i] as int && decimal(
                n,
            )[i] as int <= 57,
        n > 0 ==> decimal(n)[0] as int != 48,
    decreases n,
{
    reveal_with_fuel(reading, 2);
    if n < 10 {
        lemma_digit(n as int);
        assert(digit_text(n as int).drop_last() =~= Seq::<char>::empty());
    } else {
        law_decimal_reads_back(n / 10);
        let d = (n % 10) as int;
        lemma_digit(d);
        let s = decimal(n);
        let h = decimal(n / 10);
        assert(s.drop_last() =~= h);
        assert(s.last() == digit_text(d)[0]);
        assert forall|i: int| 0 <= i < s.len() implies 48 <= #[trigger] s[i] as int && s[i] as int
            <= 57 by {
            if i < h.len() {
                assert(s[i] == h[i]);
            }
        }
    }
}

proof fn lemma_octets(n: int, a: int, b: int, c: int, d: int)
    requires
        0 <= a < 256,
        0 <= b < 256,
        0 <= c < 256,
        0 <= d < 256,
        n == a * 16777216 + b * 65536 + c * 256 + d,
    ensures
        n / 16777216 == a,
        (n / 65536) % 256 == b,
        (n / 256) % 256 == c,
        n % 256 == d,
{
    assert(n / 256 == a * 65536 + b * 256 + c);
    assert(n / 65536 == a * 256 + b);
}

/// An address is written as its four octets in decimal, with a dot between two of them.
pub proof fn law_dotted_writes_octets(x: Ipv4Addr, a: u8, b: u8, c: u8, d: u8)
    requires
        x.bits == crate::ipv4::dotted_value(a, b, c, d),
    ensures
        dotted(x) == decimal(a as nat) + "."@ + decimal(b as nat) + "."@ + decimal(c as nat)
            + "."@ + decimal(d as nat),
{
    lemma_octets(x.bits as int, a as int, b as int, c as int, d as int);
}

/// Every character is white space.
pub open spec fn blank(s: Seq<char>) -> bool {
    forall|i: int| 0 <= i < s.len() ==> white_space(#[trigger] s[i])
}

proof fn lemma_trim_end(s: Seq<char>)
    ensures
        trim_end(s).len() <= s.len(),
        trim_end(s) == s.take(trim_end(s).len() as int),
        blank(s.skip(trim_end(s).len() as int)),
        trim_end(s).len() > 0 ==> !white_space(trim_end(s).last()),
    decreases s.len(),
{
    if s.len() == 0 || !white_space(s.last()) {
        assert(s.take(s.len() as int) =~= s);
    } else {
        let h = s.drop_last();
        lemma_trim_end(h);
        let n = trim_end(s).len() as int;
        assert(s.take(n) =~= h.take(n));
        assert forall|i: int| 0 <= i < s.len() - n implies white_space(
            #[trigger] s.skip(n)[i],
        ) by {
            if i < h.len() - n {
                assert(s.skip(n)[i] == h.skip(n)[i]);
            } else {
                assert(s.skip(n)[i] == s.last());
            }
        }
    }
}

proof fn lemma_trim_start(s: Seq<char>)
    ensures
        0 <= trim_start(s) <= s.len(),
        blank(s.take(trim_start(s))),
        trim_start(s) < s.len() ==> !white_space(s[trim_start(s)]),
    decreases s.len(),
{
    if s.len() == 0 || !white_space(s[0]) {
    } else {
        let t = s.drop_first();
        lemma_trim_start(t);
        let n = trim_start(s);
        assert forall|i: int| 0 <= i < n implies white_space(#[trigger] s.take(n)[i]) by {
            if i > 0 {
                assert(s.take(n)[i] == t.take(n - 1)[i - 1]);
            }
        }
    }
}

/// The text is white space, then `t`, then white space.
pub open spec fn framed(s: Seq<char>, a: Seq<char>, t: Seq<char>, b: Seq<char>) -> bool {
    s == a + t + b && blank(a) && blank(b)
}

/// Trimming takes white space away at either end, all of it, and nothing else.
pub proof fn law_trimming(s: Seq<char>)
    ensures
        exists|a: Seq<char>, b: Seq<char>| framed(s, a, trimmed(s), b),
        trimmed(s).len() > 0 ==> !white_space(trimmed(s)[0]) && !white_space(trimmed(s).last()),
        trimmed(s).len() == 0 <==> blank(s),
{
    lemma_trim_start(s);
    let n = trim_start(s);
    let r = s.skip(n);
    lemma_trim_end(r);
    let t = trimmed(s);
    let (a, b) = (s.take(n), r.skip(t.len() as int));
    assert(s =~= a + t + b);
    assert(framed(s, a, t, b));
    if t.len() > 0 {
        assert(t[0] == s[n]);
    }
    if blank(s) && t.len() > 0 {
        assert(t[0] == s[n]);
    }
    if t.len() == 0 {
        assert forall|i: int| 0 <= i < s.len() implies white_space(#[trigger] s[i]) by {
            if i < n {
                assert(a[i] == s[i]);
            } else {
                assert(b[i - n] == s[i]);
            }
        }
    }
}

/// White space are the characters that Unicode says so: the control characters 9 to 13, the
/// space, the next line, the spaces that do not break, and the separators of lines and words.
pub proof fn law_white_space(c: char)
    ensures
        white_space(c) <==> seq![
            0x9int,
            0xa,
            0xb,
            0xc,
            0xd,
            0x20,
            0x85,
            0xa0,
            0x1680,
            0x2000,
            0x2001,
            0x2002,
            0x2003,
            0x2004,
            0x2005,
            0x2006,
            0x2007,
            0x2008,
            0x2009,
            0x200a,
            0x2028,
            0x2029,
            0x202f,
            0x205f,
            0x3000,
        ].contains(c as int),
{
    let n = c as int;
    let s = seq![
        0x9int,
        0xa,
        0xb,
        0xc,
        0xd,
        0x20,
        0x85,
        0xa0,
        0x1680,
        0x2000,
        0x2001,
        0x2002,
        0x2003,
        0x2004,
        0x2005,
        0x2006,
        0x2007,
        0x2008,
        0x2009,
        0x200a,
        0x2028,
        0x2029,
        0x202f,
        0x205f,
        0x3000,
    ];
    if white_space(c) {
        let i = if n <= 0xd {
            n - 9
        } else if n == 0x20 {
            5
        } else if n == 0x85 {
            6
        } else if n == 0xa0 {
            7
        } else if n == 0x1680 {
            8
        } else if n <= 0x200a {
            n - 0x2000 + 9
        } else if n == 0x2028 {
            20
        } else if n == 0x2029 {
            21
        } else if n == 0x202f {
            22
        } else if n == 0x205f {
            23
        } else {
            24
        };
        assert(s[i] == n);
    }
}

/// Upper case turns a to z into A to Z, place by place, and leaves every other character alone.
pub proof fn law_upper_case(s: Seq<char>, i: int)
    requires
        0 <= i < s.len(),
    ensures
        upper_text(s).len() == s.len(),
        97 <= s[i] as int && s[i] as int <= 122 ==> upper_text(s)[i] as int == s[i] as int - 32,
        !(97 <= s[i] as int && s[i] as int <= 122) ==> upper_text(s)[i] == s[i],
{
}

} // verus!
