//! Verified text utilities: decimal parsing and formatting, prefix tests,
//! string equality, and case folding.

use vstd::prelude::*;

verus! {

// ---------------------------------------------------------------------------
// Decimal digits
// ---------------------------------------------------------------------------

/// `c` is an ASCII decimal digit.
pub open spec fn is_dec_digit(c: char) -> bool {
    48 <= c as int && c as int <= 57
}

/// Numeric value of an ASCII digit character.
pub open spec fn dec_digit_val(c: char) -> nat {
    (c as int - 48) as nat
}

/// Value of a digit string read left to right, most significant digit first.
pub open spec fn dec_val(s: Seq<char>) -> nat
    decreases s.len(),
{
    if s.len() == 0 {
        0
    } else {
        dec_val(s.drop_last()) * 10 + dec_digit_val(s.last())
    }
}

pub open spec fn all_dec_digits(s: Seq<char>) -> bool {
    forall|i: int| 0 <= i < s.len() ==> is_dec_digit(s[i])
}

/// What `str::parse::<u32>` accepts: an optional leading `+`, then at least
/// one digit, with the value fitting in a `u32`.
pub open spec fn parse_u32_of(s: Seq<char>) -> Option<u32> {
    let t = if s.len() > 0 && s[0] == '+' {
        s.drop_first()
    } else {
        s
    };
    if t.len() > 0 && all_dec_digits(t) && dec_val(t) <= u32::MAX {
        Some(dec_val(t) as u32)
    } else {
        None
    }
}

/// Extending a digit string can only increase its value.
proof fn lemma_dec_val_prefix_le(t: Seq<char>, k: int)
    requires
        0 <= k <= t.len(),
    ensures
        dec_val(t.take(k)) <= dec_val(t),
    decreases t.len() - k,
{
    if k == t.len() {
        assert(t.take(k) =~= t);
    } else {
        assert(t.take(k + 1).drop_last() =~= t.take(k));
        assert(dec_val(t.take(k + 1)) == dec_val(t.take(k)) * 10 + dec_digit_val(t.take(k + 1).last()));
        assert(dec_val(t.take(k)) * 10 >= dec_val(t.take(k)));
        lemma_dec_val_prefix_le(t, k + 1);
    }
}

/// Parses an unsigned decimal number the way `str::parse::<u32>` does:
/// an optional `+` sign, then digits; rejects anything else and overflow.
pub fn parse_u32(s: &str) -> (r: Option<u32>)
    ensures
        r == parse_u32_of(s@),
{
    let n: usize = s.unicode_len();
    let start: usize = if n > 0 && s.get_char(0) == '+' {
        1
    } else {
        0
    };
    let ghost t: Seq<char> = s@.skip(start as int);
    proof {
        if start == 1 {
            assert(t =~= s@.drop_first());
        } else {
            assert(t =~= s@);
        }
    }
    if start >= n {
        return None;
    }
    let mut acc: u32 = 0;
    let mut j: usize = start;
    while j < n
        invariant
            start <= j <= n,
            n == s@.len(),
            start as int <= s@.len(),
            t == s@.skip(start as int),
            t.len() == n - start,
            s@.len() > 0 && s@[0] == '+' ==> start == 1 && t == s@.drop_first(),
            !(s@.len() > 0 && s@[0] == '+') ==> start == 0 && t == s@,
            acc as nat == dec_val(t.take(j - start)),
            forall|k: int| 0 <= k < j - start ==> is_dec_digit(t[k]),
        decreases n - j,
    {
        let c = s.get_char(j);
        let u: u32 = c as u32;
        proof {
            assert(t[j - start] == s@[j as int]);
        }
        if !(48 <= u && u <= 57) {
            proof {
                assert(!is_dec_digit(t[j - start]));
            }
            return None;
        }
        let d: u32 = u - 48;
        // 429496729 is the largest accumulator that can take one more digit.
        if acc > 429496729 || (acc == 429496729 && d > 5) {
            proof {
                assert(t.take(j - start + 1).drop_last() =~= t.take(j - start));
                assert(dec_val(t.take(j - start + 1)) == acc * 10 + d);
                lemma_dec_val_prefix_le(t, j - start + 1);
                assert(dec_val(t) > u32::MAX);
            }
            return None;
        }
        proof {
            assert(t.take(j - start + 1).drop_last() =~= t.take(j - start));
            assert(dec_val(t.take(j - start + 1)) == acc * 10 + d);
        }
        acc = acc * 10 + d;
        j += 1;
    }
    proof {
        assert(t.take(j - start) =~= t);
    }
    Some(acc)
}

// ---------------------------------------------------------------------------
// Decimal formatting
// ---------------------------------------------------------------------------

/// The digit character for a value below ten.
pub open spec fn dec_digit_char(d: nat) -> char {
    if d == 0 {
        '0'
    } else if d == 1 {
        '1'
    } else if d == 2 {
        '2'
    } else if d == 3 {
        '3'
    } else if d == 4 {
        '4'
    } else if d == 5 {
        '5'
    } else if d == 6 {
        '6'
    } else if d == 7 {
        '7'
    } else if d == 8 {
        '8'
    } else {
        '9'
    }
}

/// Decimal rendering of a natural number, no leading zeros (except for 0).
pub open spec fn dec_str_of(n: nat) -> Seq<char>
    decreases n,
{
    if n < 10 {
        seq![dec_digit_char(n)]
    } else {
        dec_str_of(n / 10).push(dec_digit_char(n % 10))
    }
}

/// Decimal rendering of an integer: a `-` sign for negative values.
pub open spec fn int_str_of(n: int) -> Seq<char> {
    if n < 0 {
        seq!['-'] + dec_str_of((-n) as nat)
    } else {
        dec_str_of(n as nat)
    }
}

/// A one-character string for a digit value.
fn digit_str(d: u64) -> (r: &'static str)
    requires
        d < 10,
    ensures
        r@ == seq![dec_digit_char(d as nat)],
{
    let r: &'static str = if d == 0 {
        "0"
    } else if d == 1 {
        "1"
    } else if d == 2 {
        "2"
    } else if d == 3 {
        "3"
    } else if d == 4 {
        "4"
    } else if d == 5 {
        "5"
    } else if d == 6 {
        "6"
    } else if d == 7 {
        "7"
    } else if d == 8 {
        "8"
    } else {
        "9"
    };
    proof {
        reveal_strlit("0");
        reveal_strlit("1");
        reveal_strlit("2");
        reveal_strlit("3");
        reveal_strlit("4");
        reveal_strlit("5");
        reveal_strlit("6");
        reveal_strlit("7");
        reveal_strlit("8");
        reveal_strlit("9");
        assert(r@ =~= seq![dec_digit_char(d as nat)]);
    }
    r
}

/// Renders a `u64` in decimal.
pub fn u64_to_dec(n: u64) -> (r: String)
    ensures
        r@ == dec_str_of(n as nat),
    decreases n,
{
    if n < 10 {
        String::from_str(digit_str(n))
    } else {
        let mut s = u64_to_dec(n / 10);
        s.append(digit_str(n % 10));
        proof {
            assert(s@ =~= dec_str_of((n / 10) as nat).push(dec_digit_char((n % 10) as nat)));
        }
        s
    }
}

/// Renders a `u32` in decimal.
pub fn u32_to_dec(n: u32) -> (r: String)
    ensures
        r@ == dec_str_of(n as nat),
{
    u64_to_dec(n as u64)
}

/// Renders an `i32` in decimal, with a `-` sign for negative values.
pub fn i32_to_dec(n: i32) -> (r: String)
    ensures
        r@ == int_str_of(n as int),
{
    if n >= 0 {
        u64_to_dec(n as u64)
    } else {
        let mut s = String::from_str("-");
        proof {
            reveal_strlit("-");
        }
        let m: u64 = (-(n as i64)) as u64;
        let digits = u64_to_dec(m);
        s.append(digits.as_str());
        proof {
            assert(s@ =~= seq!['-'] + dec_str_of((-(n as int)) as nat));
        }
        s
    }
}

// ---------------------------------------------------------------------------
// Prefix test and equality
// ---------------------------------------------------------------------------

/// `p` is a prefix of `s`.
pub open spec fn is_prefix_of(p: Seq<char>, s: Seq<char>) -> bool {
    p.len() <= s.len() && forall|i: int| 0 <= i < p.len() ==> p[i] == s[i]
}

/// Does `s` start with `p`?
pub fn str_starts_with(s: &str, p: &str) -> (b: bool)
    ensures
        b == is_prefix_of(p@, s@),
{
    let pl: usize = p.unicode_len();
    let sl: usize = s.unicode_len();
    if pl > sl {
        return false;
    }
    let mut i: usize = 0;
    while i < pl
        invariant
            0 <= i <= pl,
            pl == p@.len(),
            sl == s@.len(),
            pl <= sl,
            forall|j: int| 0 <= j < i ==> p@[j] == s@[j],
        decreases pl - i,
    {
        if p.get_char(i) != s.get_char(i) {
            return false;
        }
        i += 1;
    }
    true
}

/// Character-for-character equality of two string slices.
pub fn str_eq(a: &str, b: &str) -> (r: bool)
    ensures
        r == (a@ == b@),
{
    let al: usize = a.unicode_len();
    let bl: usize = b.unicode_len();
    if al != bl {
        return false;
    }
    let mut i: usize = 0;
    while i < al
        invariant
            0 <= i <= al,
            al == a@.len(),
            bl == b@.len(),
            al == bl,
            forall|j: int| 0 <= j < i ==> a@[j] == b@[j],
        decreases al - i,
    {
        if a.get_char(i) != b.get_char(i) {
            return false;
        }
        i += 1;
    }
    proof {
        assert(a@ =~= b@);
    }
    true
}

// ---------------------------------------------------------------------------
// Splitting on spaces
// ---------------------------------------------------------------------------

/// The pieces of `s` between single space characters, in order. An empty
/// string has one empty piece, and consecutive spaces produce empty pieces.
pub open spec fn split_sp(s: Seq<char>) -> Seq<Seq<char>>
    decreases s.len(),
{
    if s.len() == 0 {
        seq![Seq::<char>::empty()]
    } else if s.last() == ' ' {
        split_sp(s.drop_last()).push(Seq::<char>::empty())
    } else {
        let p = split_sp(s.drop_last());
        p.update(p.len() - 1, p.last().push(s.last()))
    }
}

/// Splits `s` on single space characters.
pub fn split_spaces(s: &str) -> (r: Vec<String>)
    ensures
        r.deep_view() == split_sp(s@),
{
    let n: usize = s.unicode_len();
    let mut out: Vec<String> = Vec::new();
    let mut start: usize = 0;
    let mut i: usize = 0;
    proof {
        assert(s@.take(0) =~= Seq::<char>::empty());
        assert(out.deep_view().push(s@.subrange(0, 0)) =~= split_sp(s@.take(0)));
    }
    while i < n
        invariant
            0 <= start <= i <= n,
            n == s@.len(),
            out.deep_view().push(s@.subrange(start as int, i as int)) == split_sp(
                s@.take(i as int),
            ),
        decreases n - i,
    {
        let ghost t = s@.take(i as int);
        let c = s.get_char(i);
        proof {
            assert(s@.take(i + 1).drop_last() =~= t);
            assert(s@.take(i + 1).last() == c);
        }
        if c == ' ' {
            let piece = s.substring_char(start, i);
            out.push(String::from_str(piece));
            start = i + 1;
            proof {
                assert(out.deep_view() =~= split_sp(t));
                assert(s@.subrange(start as int, i + 1) =~= Seq::<char>::empty());
                assert(out.deep_view().push(s@.subrange(start as int, i + 1)) =~= split_sp(
                    s@.take(i + 1),
                ));
            }
        } else {
            proof {
                let p = split_sp(t);
                assert(p == out.deep_view().push(s@.subrange(start as int, i as int)));
                assert(p.last() == s@.subrange(start as int, i as int));
                assert(s@.subrange(start as int, i as int).push(c) =~= s@.subrange(
                    start as int,
                    i + 1,
                ));
                assert(out.deep_view().push(s@.subrange(start as int, i + 1)) =~= p.update(
                    p.len() - 1,
                    p.last().push(c),
                ));
            }
        }
        i += 1;
    }
    let last_piece = s.substring_char(start, n);
    out.push(String::from_str(last_piece));
    proof {
        assert(s@.take(n as int) =~= s@);
        assert(out.deep_view() =~= split_sp(s@));
    }
    out
}

// ---------------------------------------------------------------------------
// Case folding
// ---------------------------------------------------------------------------

/// The sequence of characters that `str::to_lowercase` maps `s` to. The
/// mapping depends on the characters alone.
pub uninterp spec fn lower_case_of(s: Seq<char>) -> Seq<char>;

/// Relies on `str::to_lowercase`: its result depends on the characters of the
/// input alone (no locale is consulted).
#[verifier::external_body]
pub fn to_lower(s: &str) -> (r: String)
    ensures
        r@ == lower_case_of(s@),
{
    s.to_lowercase()
}

} // verus!
