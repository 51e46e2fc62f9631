use vstd::prelude::*;
use vstd::string::*;

verus! {

/// Whether two strings hold the same characters.
pub fn str_eq(a: &str, b: &str) -> (res: bool)
    ensures
        res == (a@ == b@),
{
    let n = a.unicode_len();
    let m = b.unicode_len();
    if n != m {
        return false;
    }
    let mut i: usize = 0;
    while i < n
        invariant
            n == a@.len(),
            m == b@.len(),
            n == m,
            i <= n,
            forall|k: int| 0 <= k < i ==> a@[k] == b@[k],
        decreases n - i,
    {
        if a.get_char(i) != b.get_char(i) {
            return false;
        }
        i = i + 1;
    }
    assert(a@ =~= b@);
    true
}

/// Appends one character to `s` (std's `String::push`).
#[verifier::external_body]
pub(crate) fn push_char(s: &mut String, c: char)
    ensures
        final(s)@ == old(s)@.push(c),
{
    s.push(c);
}

/// Appends `t` to `s`.
pub fn push_str(s: &mut String, t: &str)
    ensures
        final(s)@ == old(s)@ + t@,
{
    s.append(t);
}

/// What std's `Debug` writes for a string slice: the string quoted, with its special
/// characters escaped.
pub uninterp spec fn debug_text(s: Seq<char>) -> Seq<char>;

/// The text of `format!("{:?}", s)`. Std's documentation promises a quoted, escaped string;
/// its exact escaping rules are left to the name `debug_text`.
#[verifier::external_body]
pub(crate) fn debug_str(s: &str) -> (res: String)
    ensures
        res@ == debug_text(s@),
{
    format!("{:?}", s)
}

/// The lowercase hexadecimal digit for `d`.
pub open spec fn hex_char(d: nat) -> char {
    if d < 10 { ((48 + d) as u8) as char } else { ((87 + d) as u8) as char }
}

/// The lowercase hexadecimal digits of `n`, most significant first.
pub open spec fn hex_digits(n: nat) -> Seq<char>
    decreases n,
{
    if n < 16 { seq![hex_char(n)] } else { hex_digits(n / 16).push(hex_char(n % 16)) }
}

fn hex_digit(d: usize) -> (c: char)
    requires
        d < 16,
    ensures
        c == hex_char(d as nat),
{
    let b: u8 = if d < 10 { 48 + d as u8 } else { 87 + d as u8 };
    b as char
}

/// Appends the lowercase hexadecimal digits of `n`.
pub fn push_hex(s: &mut String, n: usize)
    ensures
        final(s)@ == old(s)@ + hex_digits(n as nat),
    decreases n,
{
    if n >= 16 {
        push_hex(s, n / 16);
    }
    let ghost mid = s@;
    push_char(s, hex_digit(n % 16));
    proof {
        if n >= 16 {
            assert(s@ =~= old(s)@ + hex_digits(n as nat));
        } else {
            assert(s@ =~= old(s)@ + hex_digits(n as nat));
        }
    }
}

} // verus!
