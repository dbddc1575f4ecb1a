//! Byte-string helpers shared by the protocol and the gateway: decimal
//! numbers, searching, splitting, trimming and ASCII case folding.
use vstd::prelude::*;

verus! {

/// Relies on `String::push`: appends one character to the string.
#[verifier::external_body]
pub(crate) fn push_char(s: &mut String, c: char)
    ensures
        final(s)@ == old(s)@.push(c),
{
    s.push(c)
}

pub open spec fn is_digit(b: u8) -> bool {
    48 <= b <= 57
}

/// The decimal digits of `n`, most significant first, without leading zeros.
pub open spec fn decimal(n: nat) -> Seq<u8>
    decreases n,
{
    if n < 10 {
        seq![(48 + n) as u8]
    } else {
        decimal(n / 10).push((48 + n % 10) as u8)
    }
}

/// Appends the decimal digits of `n`.
pub fn push_decimal(out: &mut Vec<u8>, n: u64)
    ensures
        final(out)@ == old(out)@ + decimal(n as nat),
    decreases n,
{
    if n >= 10 {
        push_decimal(out, n / 10);
    }
    out.push((48 + n % 10) as u8);
    proof {
        assert(out@ =~= old(out)@ + decimal(n as nat));
    }
}

/// Appends every byte of `s`.
pub fn push_all(out: &mut Vec<u8>, s: &[u8])
    ensures
        final(out)@ == old(out)@ + s@,
{
    let mut i: usize = 0;
    while i < s.len()
        invariant
            i <= s@.len(),
            out@ == old(out)@ + s@.subrange(0, i as int),
        decreases s@.len() - i,
    {
        out.push(s[i]);
        i = i + 1;
        proof {
            assert(out@ =~= old(out)@ + s@.subrange(0, i as int));
        }
    }
    proof {
        assert(s@.subrange(0, s@.len() as int) =~= s@);
    }
}

pub open spec fn all_digits(s: Seq<u8>) -> bool {
    forall|i: int| 0 <= i < s.len() ==> is_digit(#[trigger] s[i])
}

/// The number written by a sequence of decimal digits.
pub open spec fn decimal_value(s: Seq<u8>) -> int
    decreases s.len(),
{
    if s.len() == 0 {
        0
    } else {
        decimal_value(s.drop_last()) * 10 + (s.last() - 48)
    }
}

/// The `u32` that a text of decimal digits denotes, if it is one.
pub open spec fn parse_u32_spec(s: Seq<u8>) -> Option<u32> {
    if s.len() > 0 && all_digits(s) && decimal_value(s) <= u32::MAX {
        Some(decimal_value(s) as u32)
    } else {
        None
    }
}

proof fn lemma_decimal_prefix_le(s: Seq<u8>, i: int)
    requires
        all_digits(s),
        0 <= i <= s.len(),
    ensures
        0 <= decimal_value(s.subrange(0, i)) <= decimal_value(s),
    decreases s.len(),
{
    if i < s.len() {
        let t = s.drop_last();
        assert(all_digits(t)) by {
            assert forall|j: int| 0 <= j < t.len() implies is_digit(#[trigger] t[j]) by {
                assert(t[j] == s[j]);
            }
        }
        lemma_decimal_prefix_le(t, i);
        assert(t.subrange(0, i) =~= s.subrange(0, i));
        lemma_decimal_prefix_le(t, t.len() as int);
        assert(t.subrange(0, t.len() as int) =~= t);
        assert(is_digit(s[s.len() - 1]));
    } else {
        assert(s.subrange(0, i) =~= s);
        if s.len() > 0 {
            let t = s.drop_last();
            assert(all_digits(t)) by {
                assert forall|j: int| 0 <= j < t.len() implies is_digit(#[trigger] t[j]) by {
                    assert(t[j] == s[j]);
                }
            }
            lemma_decimal_prefix_le(t, t.len() as int);
            assert(t.subrange(0, t.len() as int) =~= t);
            assert(is_digit(s[s.len() - 1]));
        }
    }
}

/// Parses a non-empty run of decimal digits that fits in a `u32`.
pub fn parse_u32(s: &[u8]) -> (r: Option<u32>)
    ensures
        r == parse_u32_spec(s@),
{
    if s.len() == 0 {
        return None;
    }
    let mut acc: u64 = 0;
    let mut i: usize = 0;
    while i < s.len()
        invariant
            0 < s@.len(),
            i <= s@.len(),
            acc as int == decimal_value(s@.subrange(0, i as int)),
            acc <= u32::MAX,
            all_digits(s@.subrange(0, i as int)),
        decreases s@.len() - i,
    {
        let b = s[i];
        if b < 48 || b > 57 {
            proof {
                assert(!is_digit(s@[i as int]));
                assert(!all_digits(s@));
            }
            return None;
        }
        proof {
            let t = s@.subrange(0, i + 1);
            assert(t.drop_last() =~= s@.subrange(0, i as int));
            assert forall|j: int| 0 <= j < t.len() implies is_digit(#[trigger] t[j]) by {
                if j < i {
                    assert(t[j] == s@.subrange(0, i as int)[j]);
                }
            }
        }
        acc = acc * 10 + (b - 48) as u64;
        i = i + 1;
        if acc > 0xffff_ffff {
            proof {
                if all_digits(s@) {
                    lemma_decimal_prefix_le(s@, i as int);
                }
            }
            return None;
        }
    }
    proof {
        assert(s@.subrange(0, s@.len() as int) =~= s@);
    }
    Some(acc as u32)
}

/// Whether `n` occurs in `h` at position `i`.
pub open spec fn occurs_at(h: Seq<u8>, n: Seq<u8>, i: int) -> bool {
    0 <= i && i + n.len() <= h.len() && h.subrange(i, i + n.len()) == n
}

/// The first position at or after `i` where `n` occurs in `h`.
pub open spec fn find_from(h: Seq<u8>, n: Seq<u8>, i: int) -> Option<int>
    decreases h.len() - i,
{
    if i < 0 || i + n.len() > h.len() {
        None
    } else if occurs_at(h, n, i) {
        Some(i)
    } else if i >= h.len() {
        None
    } else {
        find_from(h, n, i + 1)
    }
}

pub open spec fn contains(h: Seq<u8>, n: Seq<u8>) -> bool {
    find_from(h, n, 0) is Some
}

fn occurs_at_exec(h: &[u8], n: &[u8], i: usize) -> (r: bool)
    requires
        i + n@.len() <= h@.len(),
    ensures
        r == occurs_at(h@, n@, i as int),
{
    let hl = h.len();
    let mut j: usize = 0;
    while j < n.len()
        invariant
            hl == h@.len(),
            i + n@.len() <= h@.len(),
            j <= n@.len(),
            h@.subrange(i as int, i + j) =~= n@.subrange(0, j as int),
        decreases n@.len() - j,
    {
        if h[i + j] != n[j] {
            proof {
                assert(h@.subrange(i as int, i + n@.len())[j as int] != n@[j as int]);
            }
            return false;
        }
        j = j + 1;
        proof {
            assert(h@.subrange(i as int, i + j) =~= n@.subrange(0, j as int));
        }
    }
    proof {
        assert(n@.subrange(0, n@.len() as int) =~= n@);
    }
    true
}

/// The first position at or after `start` where `n` occurs in `h`.
pub fn find(h: &[u8], n: &[u8], start: usize) -> (r: Option<usize>)
    ensures
        match r {
            Some(p) => find_from(h@, n@, start as int) == Some(p as int),
            None => find_from(h@, n@, start as int) is None,
        },
{
    if start > h.len() || n.len() > h.len() - start {
        return None;
    }
    let mut i = start;
    while i <= h.len() - n.len()
        invariant
            start <= i,
            n@.len() <= h@.len(),
            find_from(h@, n@, i as int) == find_from(h@, n@, start as int),
        decreases h@.len() - i,
    {
        if occurs_at_exec(h, n, i) {
            return Some(i);
        }
        if i >= h.len() {
            return None;
        }
        i = i + 1;
    }
    None
}

/// Whether `n` occurs anywhere in `h`.
pub fn contains_exec(h: &[u8], n: &[u8]) -> (r: bool)
    ensures
        r == contains(h@, n@),
{
    find(h, n, 0).is_some()
}

/// ASCII lower case of one byte.
pub open spec fn lower_byte(b: u8) -> u8 {
    if 65 <= b <= 90 {
        (b + 32) as u8
    } else {
        b
    }
}

pub open spec fn ascii_lower(s: Seq<u8>) -> Seq<u8> {
    s.map_values(|b: u8| lower_byte(b))
}

/// The bytes with ASCII upper-case letters made lower case.
pub fn to_ascii_lower(s: &[u8]) -> (r: Vec<u8>)
    ensures
        r@ == ascii_lower(s@),
{
    let mut out: Vec<u8> = Vec::new();
    let mut i: usize = 0;
    while i < s.len()
        invariant
            i <= s@.len(),
            out@ == ascii_lower(s@.subrange(0, i as int)),
        decreases s@.len() - i,
    {
        let b = s[i];
        out.push(if 65 <= b && b <= 90 { b + 32 } else { b });
        i = i + 1;
        proof {
            assert(out@ =~= ascii_lower(s@.subrange(0, i as int)));
        }
    }
    proof {
        assert(s@.subrange(0, s@.len() as int) =~= s@);
    }
    out
}

/// The white space that trimming removes: space, tab, line feed, vertical
/// tab, form feed, carriage return.
pub open spec fn is_space(b: u8) -> bool {
    b == 32 || (9 <= b <= 13)
}

pub open spec fn trim_end(s: Seq<u8>) -> Seq<u8>
    decreases s.len(),
{
    if s.len() > 0 && is_space(s.last()) {
        trim_end(s.drop_last())
    } else {
        s
    }
}

pub open spec fn trim_start(s: Seq<u8>) -> Seq<u8>
    decreases s.len(),
{
    if s.len() > 0 && is_space(s[0]) {
        trim_start(s.drop_first())
    } else {
        s
    }
}

/// The bytes without leading and trailing white space.
pub open spec fn trim(s: Seq<u8>) -> Seq<u8> {
    trim_start(trim_end(s))
}

/// The bounds of `s` without its leading and trailing white space.
pub fn trim_bounds(s: &[u8]) -> (r: (usize, usize))
    ensures
        r.0 <= r.1 <= s@.len(),
        s@.subrange(r.0 as int, r.1 as int) == trim(s@),
{
    let mut e = s.len();
    proof {
        assert(s@.subrange(0, e as int) =~= s@);
    }
    while e > 0 && (s[e - 1] == 32 || (9 <= s[e - 1] && s[e - 1] <= 13))
        invariant
            e <= s@.len(),
            trim_end(s@.subrange(0, e as int)) == trim_end(s@),
        decreases e,
    {
        proof {
            assert(s@.subrange(0, e as int).drop_last() =~= s@.subrange(0, e - 1));
        }
        e = e - 1;
    }
    let mut a: usize = 0;
    proof {
        assert(trim_end(s@.subrange(0, e as int)) == s@.subrange(0, e as int));
        assert(s@.subrange(0, e as int) =~= s@.subrange(a as int, e as int));
    }
    while a < e && (s[a] == 32 || (9 <= s[a] && s[a] <= 13))
        invariant
            a <= e <= s@.len(),
            trim_start(s@.subrange(a as int, e as int)) == trim(s@),
        decreases e - a,
    {
        proof {
            assert(s@.subrange(a as int, e as int).drop_first() =~= s@.subrange(a + 1, e as int));
        }
        a = a + 1;
    }
    (a, e)
}

/// The pieces of `rest` between single spaces, the first piece starting
/// with `cur`.
pub open spec fn split_from(rest: Seq<u8>, cur: Seq<u8>) -> Seq<Seq<u8>>
    decreases rest.len(),
{
    if rest.len() == 0 {
        seq![cur]
    } else if rest[0] == 32 {
        seq![cur] + split_from(rest.drop_first(), Seq::empty())
    } else {
        split_from(rest.drop_first(), cur.push(rest[0]))
    }
}

/// The pieces of `s` between single spaces: `"a b"` gives `"a"` and `"b"`,
/// `"a  b"` gives `"a"`, `""` and `"b"`.
pub open spec fn split_space(s: Seq<u8>) -> Seq<Seq<u8>> {
    split_from(s, Seq::empty())
}

/// Splits `s` at each single space (see [`split_space`]).
pub fn split_spaces(s: &[u8]) -> (r: Vec<Vec<u8>>)
    ensures
        r@.len() == split_space(s@).len(),
        forall|k: int| 0 <= k < r@.len() ==> (#[trigger] r@[k])@ == split_space(s@)[k],
{
    let mut out: Vec<Vec<u8>> = Vec::new();
    let mut cur: Vec<u8> = Vec::new();
    let ghost mut done: Seq<Seq<u8>> = Seq::empty();
    let mut i: usize = 0;
    proof {
        assert(s@.subrange(0, s@.len() as int) =~= s@);
    }
    while i < s.len()
        invariant
            i <= s@.len(),
            done + split_from(s@.subrange(i as int, s@.len() as int), cur@) == split_space(s@),
            out@.len() == done.len(),
            forall|k: int| 0 <= k < out@.len() ==> (#[trigger] out@[k])@ == done[k],
        decreases s@.len() - i,
    {
        let ghost rest = s@.subrange(i as int, s@.len() as int);
        proof {
            assert(rest.drop_first() =~= s@.subrange(i + 1, s@.len() as int));
            assert(rest[0] == s@[i as int]);
        }
        if s[i] == 32 {
            proof {
                assert(seq![cur@] + split_from(rest.drop_first(), Seq::empty()) == split_from(rest, cur@));
                assert(done + seq![cur@] + split_from(rest.drop_first(), Seq::empty()) =~= done + (
                seq![cur@] + split_from(rest.drop_first(), Seq::empty())));
                done = done.push(cur@);
            }
            out.push(cur);
            cur = Vec::new();
            proof {
                assert(done =~= done.subrange(0, done.len() - 1) + seq![done.last()]);
            }
        } else {
            cur.push(s[i]);
        }
        i = i + 1;
    }
    proof {
        assert(s@.subrange(i as int, s@.len() as int) =~= Seq::<u8>::empty());
        done = done.push(cur@);
        assert(done =~= split_space(s@));
    }
    out.push(cur);
    out
}

} // verus!

verus! {

/// Whether two byte strings are equal.
pub fn bytes_eq(a: &[u8], b: &[u8]) -> (r: bool)
    ensures
        r == (a@ == b@),
{
    if a.len() != b.len() {
        return false;
    }
    let mut i: usize = 0;
    while i < a.len()
        invariant
            a@.len() == b@.len(),
            i <= a@.len(),
            a@.subrange(0, i as int) =~= b@.subrange(0, i as int),
        decreases a@.len() - i,
    {
        if a[i] != b[i] {
            return false;
        }
        i = i + 1;
        proof {
            assert(a@.subrange(0, i as int) =~= b@.subrange(0, i as int));
        }
    }
    proof {
        assert(a@ =~= a@.subrange(0, i as int));
        assert(b@ =~= b@.subrange(0, i as int));
    }
    true
}

proof fn lemma_split_from_nonempty(rest: Seq<u8>, cur: Seq<u8>)
    ensures
        split_from(rest, cur).len() >= 1,
    decreases rest.len(),
{
    if rest.len() > 0 {
        if rest[0] == 32 {
            lemma_split_from_nonempty(rest.drop_first(), Seq::empty());
        } else {
            lemma_split_from_nonempty(rest.drop_first(), cur.push(rest[0]));
        }
    }
}

/// Splitting always gives at least one piece.
pub proof fn lemma_split_nonempty(s: Seq<u8>)
    ensures
        split_space(s).len() >= 1,
{
    lemma_split_from_nonempty(s, Seq::empty());
}

} // verus!

verus! {

/// A position that the search finds is an occurrence.
pub proof fn lemma_find_from_occurs(h: Seq<u8>, n: Seq<u8>, i: int)
    ensures
        find_from(h, n, i) is Some ==> occurs_at(h, n, find_from(h, n, i)->Some_0),
    decreases h.len() - i,
{
    if !(i < 0 || i + n.len() > h.len()) && !occurs_at(h, n, i) && i < h.len() {
        lemma_find_from_occurs(h, n, i + 1);
    }
}

} // verus!
