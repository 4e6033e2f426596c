//! Character-level helpers shared by the formatting code of the library.
use vstd::prelude::*;
use vstd::string::*;

verus! {

/// Builds a `String` holding exactly the given characters, in order.
///
/// Trusted: calls `FromIterator<char>` for `String` (std), which appends the
/// characters one by one.
#[verifier::external_body]
pub(crate) fn string_from_chars(chars: &Vec<char>) -> (s: String)
    ensures
        s@ == chars@,
{
    chars.iter().collect()
}

/// The characters of `s`, in order.
pub fn chars_of(s: &str) -> (v: Vec<char>)
    ensures
        v@ == s@,
{
    let n = s.unicode_len();
    let mut v: Vec<char> = Vec::new();
    let mut i: usize = 0;
    while i < n
        invariant
            n == s@.len(),
            i <= n,
            v@ == s@.subrange(0, i as int),
        decreases n - i,
    {
        let c = s.get_char(i);
        v.push(c);
        i = i + 1;
        assert(v@ =~= s@.subrange(0, i as int));
    }
    assert(v@ =~= s@);
    v
}

/// The decimal digit character for `d < 10`.
pub open spec fn digit_char(d: nat) -> char {
    ((48 + d) as u8) as char
}

/// The decimal representation of `n`, most significant digit first, without
/// leading zeros (`0` is written `"0"`).
pub open spec fn decimal(n: nat) -> Seq<char>
    decreases n,
{
    if n < 10 {
        seq![digit_char(n)]
    } else {
        decimal(n / 10).push(digit_char(n % 10))
    }
}

/// Appends the decimal representation of `n` to `out`.
pub fn push_decimal(out: &mut Vec<char>, n: u64)
    ensures
        final(out)@ == old(out)@ + decimal(n as nat),
    decreases n,
{
    if n >= 10 {
        push_decimal(out, n / 10);
    }
    let d: u8 = (n % 10) as u8;
    let c: char = (48u8 + d) as char;
    out.push(c);
    assert(final(out)@ =~= old(out)@ + decimal(n as nat));
}

/// Appends all characters of `s` to `out`.
pub fn push_str(out: &mut Vec<char>, s: &str)
    ensures
        final(out)@ == old(out)@ + s@,
{
    let cs = chars_of(s);
    let n = cs.len();
    let mut i: usize = 0;
    while i < n
        invariant
            n == cs@.len(),
            cs@ == s@,
            i <= n,
            out@ == old(out)@ + s@.subrange(0, i as int),
        decreases n - i,
    {
        out.push(cs[i]);
        i = i + 1;
        assert(out@ =~= old(out)@ + s@.subrange(0, i as int));
    }
    assert(s@.subrange(0, n as int) =~= s@);
}

/// Whether two strings hold the same characters.
pub fn same_text(a: &str, b: &str) -> (r: bool)
    ensures
        r == (a@ == b@),
{
    let x = chars_of(a);
    let y = chars_of(b);
    if x.len() != y.len() {
        return false;
    }
    let n = x.len();
    let mut i: usize = 0;
    while i < n
        invariant
            n == x@.len(),
            n == y@.len(),
            x@ == a@,
            y@ == b@,
            i <= n,
            forall|j: int| 0 <= j < i ==> x@[j] == y@[j],
        decreases n - i,
    {
        if x[i] != y[i] {
            return false;
        }
        i = i + 1;
    }
    assert(a@ =~= b@);
    true
}

/// Whether `s` holds the character `c`.
pub fn has_char(s: &str, c: char) -> (r: bool)
    ensures
        r == s@.contains(c),
{
    let x = chars_of(s);
    let n = x.len();
    let mut i: usize = 0;
    while i < n
        invariant
            n == x@.len(),
            x@ == s@,
            i <= n,
            forall|j: int| 0 <= j < i ==> x@[j] != c,
        decreases n - i,
    {
        if x[i] == c {
            return true;
        }
        i = i + 1;
    }
    false
}

/// The parts joined by commas: `a,b,c`.
pub open spec fn comma_joined(parts: Seq<Seq<char>>) -> Seq<char>
    decreases parts.len(),
{
    if parts.len() == 0 {
        seq![]
    } else if parts.len() == 1 {
        parts[0]
    } else {
        comma_joined(parts.drop_last()) + seq![','] + parts.last()
    }
}

/// Appends the parts, joined by commas, to `out`.
pub fn push_comma_joined(out: &mut Vec<char>, parts: &Vec<String>)
    ensures
        final(out)@ == old(out)@ + comma_joined(parts.deep_view()),
{
    let n = parts.len();
    let mut i: usize = 0;
    while i < n
        invariant
            n == parts.len(),
            i <= n,
            out@ == old(out)@ + comma_joined(parts.deep_view().take(i as int)),
        decreases n - i,
    {
        let ghost before = out@;
        if i > 0 {
            out.push(',');
        }
        push_str(out, parts[i].as_str());
        proof {
            let ps = parts.deep_view();
            assert(ps.take(i + 1).drop_last() =~= ps.take(i as int));
            if i == 0 {
                assert(comma_joined(ps.take(0)) =~= seq![]);
            }
        }
        i = i + 1;
    }
    assert(parts.deep_view().take(n as int) =~= parts.deep_view());
}

/// Whether `part` occurs in `s` as a contiguous run of characters.
pub open spec fn includes(s: Seq<char>, part: Seq<char>) -> bool {
    exists|i: int| 0 <= i && i + part.len() <= s.len() && #[trigger] s.subrange(i, i + part.len()) == part
}

/// Whether `part` occurs in `s`.
pub fn includes_text(s: &str, part: &str) -> (r: bool)
    ensures
        r == includes(s@, part@),
{
    let cs = chars_of(s);
    let ps = chars_of(part);
    let n = cs.len();
    let m = ps.len();
    if m > n {
        return false;
    }
    let mut i: usize = 0;
    while i <= n - m
        invariant
            n == cs.len(),
            m == ps.len(),
            cs@ == s@,
            ps@ == part@,
            m <= n,
            i <= n - m + 1,
            forall|k: int| 0 <= k < i ==> #[trigger] s@.subrange(k, k + m) != part@,
        decreases n - m + 1 - i,
    {
        let mut j: usize = 0;
        let mut same = true;
        while j < m
            invariant
                n == cs.len(),
                m == ps.len(),
                i + m <= n,
                j <= m,
                same == (forall|t: int| 0 <= t < j ==> cs@[i + t] == ps@[t]),
            decreases m - j,
        {
            if cs[i + j] != ps[j] {
                same = false;
            }
            j = j + 1;
        }
        if same {
            assert(s@.subrange(i as int, i + m) =~= part@);
            return true;
        }
        proof {
            let t = choose|t: int| 0 <= t < m && cs@[i + t] != ps@[t];
            assert(s@.subrange(i as int, i + m)[t] != part@[t]);
        }
        i = i + 1;
    }
    false
}

} // verus!
