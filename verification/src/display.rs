//! Helpers for showing TODOs in a terminal.
use vstd::prelude::*;
use vstd::string::StringSliceAdditionalSpecFns;
use crate::text::{chars_of, find_byte, find_byte_from, lemma_find_byte, push_bytes, string_from_utf8, string_of};

verus! {

/// The widest a shortened path may be.
pub const MAX_LOCATION_WIDTH: usize = 16;

/// The number of bytes of the UTF-8 character that starts with byte `b`.
pub open spec fn char_width(b: u8) -> int {
    if b >= 0xf0 {
        4
    } else if b >= 0xe0 {
        3
    } else if b >= 0xc0 {
        2
    } else {
        1
    }
}

/// The bytes of the first character of `part`.
pub open spec fn first_char_bytes(part: Seq<u8>) -> Seq<u8> {
    let w = char_width(part[0]);
    part.subrange(0, if w <= part.len() { w } else { part.len() as int })
}

/// `b` continues a UTF-8 character (so no character starts there).
pub open spec fn is_continuation(b: u8) -> bool {
    0x80 <= b < 0xc0
}

/// `path` without a leading `./`.
pub open spec fn strip_dot_slash(path: Seq<u8>) -> Seq<u8> {
    if path.len() >= 2 && path[0] == 46u8 && path[1] == 47u8 {
        path.subrange(2, path.len() as int)
    } else {
        path
    }
}

/// Abbreviates the directories of `p` from the one starting at `pos` to their first
/// character while `length` exceeds the limit. Returns the abbreviation and what is
/// left of `p` unabbreviated; `None` where a directory name is empty (there is no
/// first character to keep).
pub open spec fn abbreviate(p: Seq<u8>, pos: int, length: int, abbrev: Seq<u8>) -> Option<
    (Seq<u8>, Seq<u8>),
>
    decreases p.len() - pos,
{
    if length <= MAX_LOCATION_WIDTH || pos < 0 || pos > p.len() {
        Some((abbrev, p.subrange(pos, p.len() as int)))
    } else {
        let e = find_byte(p, 47u8, pos);
        proof {
            lemma_find_byte(p, 47u8, pos);
        }
        if e < p.len() {
            let part = p.subrange(pos, e);
            if part.len() == 0 {
                None
            } else {
                abbreviate(p, e + 1, length - (part.len() - 1), abbrev + first_char_bytes(part) + seq![47u8])
            }
        } else {
            Some((abbrev + p.subrange(pos, p.len() as int), Seq::empty()))
        }
    }
}

/// `path` shortened to fit [`MAX_LOCATION_WIDTH`]: without a leading `./`, with
/// directories abbreviated to their first character from the left while the path is too
/// wide, and cut to its last 13 bytes after `...` if it is still too wide. `None` where
/// the path cannot be shortened so: an empty directory name to abbreviate, or a cut
/// inside a character.
pub open spec fn truncated(path: Seq<u8>) -> Option<Seq<u8>> {
    let p = strip_dot_slash(path);
    match abbreviate(p, 0, p.len() as int, Seq::empty()) {
        None => None,
        Some((abbrev, rest)) => {
            let a = abbrev + rest;
            if a.len() > MAX_LOCATION_WIDTH {
                let cut = a.len() - (MAX_LOCATION_WIDTH - 3);
                if is_continuation(a[cut]) {
                    None
                } else {
                    Some(seq![46u8, 46u8, 46u8] + a.subrange(cut, a.len() as int))
                }
            } else {
                Some(a)
            }
        },
    }
}

/// Shortens a file path for display (see [`truncated`]).
pub fn truncate_path(path: &str) -> (r: String)
    requires
        truncated(path.spec_bytes()) is Some,
    ensures
        r@ == string_of(truncated(path.spec_bytes()).unwrap()),
{
    string_from_utf8(truncate_path_bytes(path.as_bytes()))
}

/// Shortens a file path for display (see [`truncated`]); `None` where it cannot be
/// shortened so.
pub fn try_truncate_path(path: &str) -> (r: Option<String>)
    ensures
        match truncated(path.spec_bytes()) {
            Some(t) => r matches Some(s) && s@ == string_of(t),
            None => r is None,
        },
{
    match try_truncate_path_bytes(path.as_bytes()) {
        Some(v) => Some(string_from_utf8(v)),
        None => None,
    }
}

/// The UTF-8 bytes of `path` shortened for display (see [`truncated`]).
pub fn truncate_path_bytes(bytes: &[u8]) -> (r: Vec<u8>)
    requires
        truncated(bytes@) is Some,
    ensures
        r@ == truncated(bytes@).unwrap(),
{
    match try_truncate_path_bytes(bytes) {
        Some(v) => v,
        None => Vec::new(),
    }
}

/// The UTF-8 bytes of `path` shortened for display (see [`truncated`]); `None` where it
/// cannot be shortened so.
pub fn try_truncate_path_bytes(bytes: &[u8]) -> (r: Option<Vec<u8>>)
    ensures
        match truncated(bytes@) {
            Some(t) => r matches Some(v) && v@ == t,
            None => r is None,
        },
{
    let p = if bytes.len() >= 2 && bytes[0] == 46u8 && bytes[1] == 47u8 {
        &bytes[2..bytes.len()]
    } else {
        bytes
    };
    assert(p@ == strip_dot_slash(bytes@));
    let n = p.len();
    let ghost whole = abbreviate(p@, 0, n as int, Seq::empty());
    let mut abbrev: Vec<u8> = Vec::new();
    let mut length = n;
    let mut pos: usize = 0;
    let mut done = false;
    while length > MAX_LOCATION_WIDTH && !done
        invariant
            n == p@.len(),
            pos <= n,
            length >= n - pos,
            whole == abbreviate(p@, 0, n as int, Seq::empty()),
            p@ == strip_dot_slash(bytes@),
            !done ==> whole == abbreviate(p@, pos as int, length as int, abbrev@),
            done ==> whole == Some((abbrev@, Seq::<u8>::empty())),
        decreases n - pos + (if done { 0int } else { 1int }),
    {
        let e = find_byte_from(p, 47u8, pos);
        proof {
            lemma_find_byte(p@, 47u8, pos as int);
        }
        if e < n {
            if e == pos {
                assert(p@.subrange(pos as int, e as int).len() == 0);
                assert(abbreviate(p@, pos as int, length as int, abbrev@) is None);
                assert(truncated(bytes@) is None);
                return None;
            }
            let w: usize = if p[pos] >= 0xf0 {
                4
            } else if p[pos] >= 0xe0 {
                3
            } else if p[pos] >= 0xc0 {
                2
            } else {
                1
            };
            let part_len = e - pos;
            let take = if w <= part_len { w } else { part_len };
            let ghost before = abbrev@;
            push_bytes(&mut abbrev, &p[pos..pos + take]);
            abbrev.push(47u8);
            proof {
                assert(p@.subrange(pos as int, e as int).subrange(0, take as int) =~= p@.subrange(
                    pos as int,
                    pos + take,
                ));
                assert(abbrev@ =~= before + first_char_bytes(p@.subrange(pos as int, e as int))
                    + seq![47u8]);
            }
            length = length - (part_len - 1);
            pos = e + 1;
        } else {
            push_bytes(&mut abbrev, &p[pos..n]);
            done = true;
        }
    }
    if !done {
        push_bytes(&mut abbrev, &p[pos..n]);
    }
    let a = abbrev;
    if a.len() > MAX_LOCATION_WIDTH {
        let cut = a.len() - (MAX_LOCATION_WIDTH - 3);
        if 0x80 <= a[cut] && a[cut] < 0xc0 {
            return None;
        }
        let mut out: Vec<u8> = Vec::new();
        out.push(46u8);
        out.push(46u8);
        out.push(46u8);
        push_bytes(&mut out, &a.as_slice()[cut..a.len()]);
        proof {
            assert(out@ =~= seq![46u8, 46u8, 46u8] + a@.subrange(cut as int, a@.len() as int));
        }
        Some(out)
    } else {
        Some(a)
    }
}

/// `n` copies of `c` (none where `n` is not positive).
pub open spec fn repeated(c: char, n: int) -> Seq<char> {
    Seq::new(if n > 0 { n as nat } else { 0 }, |_i: int| c)
}

/// `s` padded with spaces on the right to `width` characters, as `{:<width$}` pads it.
pub open spec fn pad_right(s: Seq<char>, width: int) -> Seq<char> {
    s + repeated(' ', width - s.len())
}

/// `s` padded with spaces on the left to `width` characters, as `{:>width$}` pads it.
pub open spec fn pad_left(s: Seq<char>, width: int) -> Seq<char> {
    repeated(' ', width - s.len()) + s
}

/// `s` padded with zeros on the left to `width` characters.
pub open spec fn zero_pad(s: Seq<char>, width: int) -> Seq<char> {
    repeated('0', width - s.len()) + s
}

/// Appends `n` copies of `c` to `out`.
pub fn push_repeated(out: &mut Vec<char>, c: char, n: usize)
    ensures
        final(out)@ == old(out)@ + repeated(c, n as int),
{
    let mut k: usize = 0;
    while k < n
        invariant
            k <= n,
            out@ == old(out)@ + repeated(c, k as int),
        decreases n - k,
    {
        out.push(c);
        k = k + 1;
        assert(repeated(c, k as int) =~= repeated(c, k - 1).push(c));
    }
}

/// Appends the characters `cs` to `out`.
pub fn push_chars(out: &mut Vec<char>, cs: &[char])
    ensures
        final(out)@ == old(out)@ + cs@,
{
    let mut k: usize = 0;
    while k < cs.len()
        invariant
            k <= cs@.len(),
            out@ == old(out)@ + cs@.subrange(0, k as int),
        decreases cs@.len() - k,
    {
        out.push(cs[k]);
        k = k + 1;
        assert(cs@.subrange(0, k as int) =~= cs@.subrange(0, k - 1).push(cs@[k - 1]));
    }
    assert(cs@.subrange(0, cs@.len() as int) =~= cs@);
}

/// The characters of `s`, appended to `out`.
pub fn push_str(out: &mut Vec<char>, s: &str)
    ensures
        final(out)@ == old(out)@ + s@,
{
    push_chars(out, chars_of(s).as_slice());
}

/// The number of decimal digits of `n`.
pub open spec fn decimal_digits(n: nat) -> nat
    decreases n,
{
    if n < 10 {
        1
    } else {
        1 + decimal_digits(n / 10)
    }
}

proof fn lemma_decimal_digits(n: nat)
    requires
        n <= u32::MAX,
    ensures
        1 <= decimal_digits(n) <= 10,
{
    assert(decimal_digits(n) <= 10) by {
        reveal_with_fuel(decimal_digits, 11);
        assert(n / 10 / 10 / 10 / 10 / 10 / 10 / 10 / 10 / 10 < 10);
    }
}

/// The number of decimal digits of `n`.
pub fn num_digits(n: u32) -> (r: u32)
    ensures
        r == decimal_digits(n as nat),
{
    proof {
        lemma_decimal_digits(n as nat);
    }
    let mut m = n;
    let mut d: u32 = 1;
    while m >= 10
        invariant
            d + decimal_digits(m as nat) == decimal_digits(n as nat) + 1,
            decimal_digits(n as nat) <= 10,
            d >= 1,
        decreases m,
    {
        m = m / 10;
        d = d + 1;
    }
    d
}

/// The decimal digits of `n`.
pub open spec fn decimal(n: nat) -> Seq<char>
    decreases n,
{
    if n < 10 {
        seq![('0' as int + n) as char]
    } else {
        decimal(n / 10).push(('0' as int + n % 10) as char)
    }
}

/// Appends the decimal digits of `n` to `out`.
pub fn push_decimal(out: &mut Vec<char>, n: u64)
    ensures
        final(out)@ == old(out)@ + decimal(n as nat),
    decreases n,
{
    if n >= 10 {
        push_decimal(out, n / 10);
    }
    let d = n % 10;
    let c: char = match d {
        0 => '0',
        1 => '1',
        2 => '2',
        3 => '3',
        4 => '4',
        5 => '5',
        6 => '6',
        7 => '7',
        8 => '8',
        _ => '9',
    };
    assert(c == ('0' as int + n % 10) as char);
    out.push(c);
    assert(decimal(n as nat) == if n < 10 {
        seq![('0' as int + n) as char]
    } else {
        decimal((n / 10) as nat).push(('0' as int + n % 10) as char)
    });
}

/// A number printed in decimal takes [`num_digits`] characters: the digit count is the
/// width of the number as text.
pub proof fn law_decimal_width(n: nat)
    ensures
        decimal(n).len() == decimal_digits(n),
    decreases n,
{
    if n >= 10 {
        law_decimal_width(n / 10);
    }
}

/// A shortened path never exceeds [`MAX_LOCATION_WIDTH`] bytes.
pub proof fn law_truncated_fits(path: Seq<u8>)
    requires
        truncated(path) is Some,
    ensures
        truncated(path).unwrap().len() <= MAX_LOCATION_WIDTH,
{
}

/// A path that fits (once a leading `./` is dropped) is shown as it is.
pub proof fn law_short_path_kept(path: Seq<u8>)
    requires
        strip_dot_slash(path).len() <= MAX_LOCATION_WIDTH,
    ensures
        truncated(path) == Some(strip_dot_slash(path)),
{
    let p = strip_dot_slash(path);
    assert(Seq::<u8>::empty() + p.subrange(0, p.len() as int) =~= p);
}

/// `10` to the power `k`.
pub open spec fn pow10(k: nat) -> nat
    decreases k,
{
    if k == 0 {
        1
    } else {
        10 * pow10((k - 1) as nat)
    }
}

/// `n` has `d` digits exactly when `10^(d-1) <= n < 10^d` (and 0 has one digit).
pub proof fn law_decimal_digits(n: nat)
    ensures
        decimal_digits(n) >= 1,
        n < pow10(decimal_digits(n)),
        n > 0 ==> pow10((decimal_digits(n) - 1) as nat) <= n,
    decreases n,
{
    if n >= 10 {
        law_decimal_digits(n / 10);
        let d = decimal_digits(n / 10);
        assert(pow10(d + 1) == 10 * pow10(d));
        assert(n < 10 * pow10(d)) by (nonlinear_arith)
            requires
                n / 10 < pow10(d),
                n >= 0,
        ;
        assert(pow10(d) == 10 * pow10((d - 1) as nat));
        assert(10 * pow10((d - 1) as nat) <= n) by (nonlinear_arith)
            requires
                pow10((d - 1) as nat) <= n / 10,
                n >= 0,
        ;
    } else {
        assert(pow10(0) == 1);
        assert(pow10(1) == 10 * pow10(0));
    }
}

} // verus!
