//! Byte-level text utilities the assembler lexes with: whitespace trimming,
//! searching, case folding and integer literals. The assembler works on the
//! UTF-8 bytes of the source; all syntax it recognises is ASCII.

use vstd::prelude::*;

verus! {

/// ASCII whitespace as the lexer sees it.
pub open spec fn is_space(b: u8) -> bool {
    b == 32 || b == 9 || b == 13 || b == 10
}

/// `s` with leading whitespace dropped.
pub open spec fn spec_trim_front(s: Seq<u8>) -> Seq<u8>
    decreases s.len(),
{
    if s.len() > 0 && is_space(s[0]) {
        spec_trim_front(s.drop_first())
    } else {
        s
    }
}

/// `s` with trailing whitespace dropped.
pub open spec fn spec_trim_back(s: Seq<u8>) -> Seq<u8>
    decreases s.len(),
{
    if s.len() > 0 && is_space(s.last()) {
        spec_trim_back(s.drop_last())
    } else {
        s
    }
}

/// `s` with whitespace dropped at both ends.
pub open spec fn spec_trim(s: Seq<u8>) -> Seq<u8> {
    spec_trim_back(spec_trim_front(s))
}

/// Dropping leading whitespace is skipping up to the first non-space.
proof fn lemma_trim_front_skip(s: Seq<u8>, i: int)
    requires
        0 <= i <= s.len(),
        forall|k: int| 0 <= k < i ==> is_space(#[trigger] s[k]),
        i == s.len() || !is_space(s[i]),
    ensures
        spec_trim_front(s) == s.skip(i),
    decreases i,
{
    if i == 0 {
        assert(spec_trim_front(s) =~= s.skip(0));
    } else {
        assert(is_space(s[0]));
        lemma_trim_front_skip(s.drop_first(), i - 1);
        assert(s.drop_first().skip(i - 1) =~= s.skip(i));
    }
}

/// Dropping trailing whitespace is taking up to past the last non-space.
proof fn lemma_trim_back_take(s: Seq<u8>, j: int)
    requires
        0 <= j <= s.len(),
        forall|k: int| j <= k < s.len() ==> is_space(#[trigger] s[k]),
        j == 0 || !is_space(s[j - 1]),
    ensures
        spec_trim_back(s) == s.take(j),
    decreases s.len() - j,
{
    if j == s.len() {
        assert(spec_trim_back(s) =~= s.take(j));
    } else {
        assert(is_space(s.last()));
        lemma_trim_back_take(s.drop_last(), j);
        assert(s.drop_last().take(j) =~= s.take(j));
    }
}

/// A trimmed token has no whitespace at either end.
pub proof fn lemma_trim_no_edge_space(s: Seq<u8>)
    ensures
        spec_trim(s).len() > 0 ==> !is_space(spec_trim(s)[0]) && !is_space(spec_trim(s).last()),
    decreases s.len(),
{
    lemma_trim_front_no_space(s);
    lemma_trim_back_no_space(spec_trim_front(s));
    let f = spec_trim_front(s);
    let t = spec_trim_back(f);
    if t.len() > 0 {
        lemma_trim_back_prefix(f);
    }
}

/// Trimming the front leaves no leading whitespace.
proof fn lemma_trim_front_no_space(s: Seq<u8>)
    ensures
        spec_trim_front(s).len() > 0 ==> !is_space(spec_trim_front(s)[0]),
    decreases s.len(),
{
    if s.len() > 0 && is_space(s[0]) {
        lemma_trim_front_no_space(s.drop_first());
    }
}

/// Trimming the back leaves no trailing whitespace.
proof fn lemma_trim_back_no_space(s: Seq<u8>)
    ensures
        spec_trim_back(s).len() > 0 ==> !is_space(spec_trim_back(s).last()),
    decreases s.len(),
{
    if s.len() > 0 && is_space(s.last()) {
        lemma_trim_back_no_space(s.drop_last());
    }
}

/// Trimming the back keeps a prefix: what is left starts where `s` starts.
proof fn lemma_trim_back_prefix(s: Seq<u8>)
    ensures
        spec_trim_back(s).len() > 0 ==> spec_trim_back(s)[0] == s[0],
    decreases s.len(),
{
    if s.len() > 0 && is_space(s.last()) {
        lemma_trim_back_prefix(s.drop_last());
    }
}

/// Trimming is idempotent.
pub proof fn lemma_trim_idempotent(s: Seq<u8>)
    ensures
        spec_trim(spec_trim(s)) == spec_trim(s),
{
    lemma_trim_no_edge_space(s);
    let t = spec_trim(s);
    assert(spec_trim_front(t) == t);
    assert(spec_trim_back(t) == t);
}

/// Copy `s[from..to)` out as a fresh vector.
pub fn sub_vec(s: &[u8], from: usize, to: usize) -> (r: Vec<u8>)
    requires
        0 <= from <= to <= s@.len(),
    ensures
        r@ == s@.subrange(from as int, to as int),
{
    let mut r: Vec<u8> = Vec::new();
    let mut i = from;
    while i < to
        invariant
            from <= i <= to <= s@.len(),
            r@ == s@.subrange(from as int, i as int),
        decreases to - i,
    {
        r.push(s[i]);
        proof {
            assert(r@ =~= s@.subrange(from as int, i as int + 1));
        }
        i = i + 1;
    }
    r
}

/// Drop whitespace at both ends, copying the middle out.
pub fn trim(s: &[u8]) -> (r: Vec<u8>)
    ensures
        r@ == spec_trim(s@),
{
    let n = s.len();
    let mut i: usize = 0;
    while i < n && (s[i] == 32 || s[i] == 9 || s[i] == 13 || s[i] == 10)
        invariant
            0 <= i <= n,
            n == s@.len(),
            forall|k: int| 0 <= k < i ==> is_space(#[trigger] s@[k]),
        decreases n - i,
    {
        i = i + 1;
    }
    proof {
        lemma_trim_front_skip(s@, i as int);
    }
    let mut j: usize = n;
    while j > i && (s[j - 1] == 32 || s[j - 1] == 9 || s[j - 1] == 13 || s[j - 1] == 10)
        invariant
            i <= j <= n,
            n == s@.len(),
            forall|k: int| j <= k < n ==> is_space(#[trigger] s@[k]),
        decreases j,
    {
        j = j - 1;
    }
    let r = sub_vec(s, i, j);
    proof {
        let front = s@.skip(i as int);
        lemma_trim_back_take(front, j - i);
        assert(front.take(j - i) =~= s@.subrange(i as int, j as int));
        if j > i {
            assert(!is_space(front[j - i - 1]));
        }
    }
    r
}

/// The index of the first `b` in `s`, or the length if there is none.
pub open spec fn spec_find(s: Seq<u8>, b: u8) -> int
    decreases s.len(),
{
    if s.len() == 0 {
        0
    } else if s[0] == b {
        0
    } else {
        1 + spec_find(s.drop_first(), b)
    }
}

/// `spec_find` names the first occurrence.
pub proof fn lemma_spec_find(s: Seq<u8>, b: u8)
    ensures
        0 <= spec_find(s, b) <= s.len(),
        spec_find(s, b) < s.len() ==> s[spec_find(s, b)] == b,
        forall|k: int| 0 <= k < spec_find(s, b) ==> s[k] != b,
    decreases s.len(),
{
    if s.len() > 0 && s[0] != b {
        lemma_spec_find(s.drop_first(), b);
        assert forall|k: int| 0 <= k < spec_find(s, b) implies s[k] != b by {
            if k > 0 {
                assert(s.drop_first()[k - 1] == s[k]);
            }
        }
    }
}

/// Find the first `b` in `s`, or return the length.
pub fn find_byte(s: &[u8], b: u8) -> (r: usize)
    ensures
        r == spec_find(s@, b),
{
    proof {
        lemma_spec_find(s@, b);
    }
    let n = s.len();
    let mut i: usize = 0;
    while i < n && s[i] != b
        invariant
            0 <= i <= n,
            n == s@.len(),
            forall|k: int| 0 <= k < i ==> s@[k] != b,
        decreases n - i,
    {
        i = i + 1;
    }
    proof {
        lemma_find_unique(s@, b, i as int);
    }
    i
}

/// Any index with `b` there and none before is `spec_find`.
pub proof fn lemma_find_unique(s: Seq<u8>, b: u8, i: int)
    requires
        0 <= i <= s.len(),
        forall|k: int| 0 <= k < i ==> s[k] != b,
        i == s.len() || s[i] == b,
    ensures
        spec_find(s, b) == i,
    decreases i,
{
    if i > 0 {
        lemma_find_unique(s.drop_first(), b, i - 1);
    }
}

/// The index of the first whitespace byte, or the length if there is none.
pub open spec fn spec_find_space(s: Seq<u8>) -> int
    decreases s.len(),
{
    if s.len() == 0 {
        0
    } else if is_space(s[0]) {
        0
    } else {
        1 + spec_find_space(s.drop_first())
    }
}

/// `spec_find_space` names the first whitespace.
pub proof fn lemma_spec_find_space(s: Seq<u8>)
    ensures
        0 <= spec_find_space(s) <= s.len(),
        spec_find_space(s) < s.len() ==> is_space(s[spec_find_space(s)]),
        forall|k: int| 0 <= k < spec_find_space(s) ==> !is_space(#[trigger] s[k]),
    decreases s.len(),
{
    if s.len() > 0 && !is_space(s[0]) {
        lemma_spec_find_space(s.drop_first());
        assert forall|k: int| 0 <= k < spec_find_space(s) implies !is_space(#[trigger] s[k]) by {
            if k > 0 {
                assert(s.drop_first()[k - 1] == s[k]);
            }
        }
    }
}

/// Find the first whitespace byte, or return the length.
pub fn find_space(s: &[u8]) -> (r: usize)
    ensures
        r == spec_find_space(s@),
{
    proof {
        lemma_spec_find_space(s@);
    }
    let n = s.len();
    let mut i: usize = 0;
    while i < n && !(s[i] == 32 || s[i] == 9 || s[i] == 13 || s[i] == 10)
        invariant
            0 <= i <= n,
            n == s@.len(),
            forall|k: int| 0 <= k < i ==> !is_space(#[trigger] s@[k]),
        decreases n - i,
    {
        i = i + 1;
    }
    proof {
        lemma_find_space_unique(s@, i as int);
    }
    i
}

/// Any index with whitespace there and none before is `spec_find_space`.
proof fn lemma_find_space_unique(s: Seq<u8>, i: int)
    requires
        0 <= i <= s.len(),
        forall|k: int| 0 <= k < i ==> !is_space(#[trigger] s[k]),
        i == s.len() || is_space(s[i]),
    ensures
        spec_find_space(s) == i,
    decreases i,
{
    if i > 0 {
        lemma_find_space_unique(s.drop_first(), i - 1);
    }
}

/// Byte-for-byte equality.
pub fn bytes_eq(a: &[u8], b: &[u8]) -> (r: bool)
    ensures
        r == (a@ == b@),
{
    if a.len() != b.len() {
        proof {
            assert(a@ != b@);
        }
        return false;
    }
    let n = a.len();
    let mut i: usize = 0;
    while i < n
        invariant
            0 <= i <= n,
            n == a@.len() == b@.len(),
            forall|k: int| 0 <= k < i ==> a@[k] == b@[k],
        decreases n - i,
    {
        if a[i] != b[i] {
            proof {
                assert(a@ != b@);
            }
            return false;
        }
        i = i + 1;
    }
    proof {
        assert(a@ =~= b@);
    }
    true
}

/// Whether `p` is a prefix of `s`.
pub fn has_prefix(s: &[u8], p: &[u8]) -> (r: bool)
    ensures
        r == (s@.len() >= p@.len() && s@.take(p@.len() as int) == p@),
{
    if s.len() < p.len() {
        return false;
    }
    let n = p.len();
    let mut i: usize = 0;
    while i < n
        invariant
            0 <= i <= n,
            n == p@.len() <= s@.len(),
            forall|k: int| 0 <= k < i ==> s@[k] == p@[k],
        decreases n - i,
    {
        if s[i] != p[i] {
            proof {
                assert(s@.take(n as int)[i as int] != p@[i as int]);
            }
            return false;
        }
        i = i + 1;
    }
    proof {
        assert(s@.take(n as int) =~= p@);
    }
    true
}

/// ASCII lower-casing, one byte.
pub open spec fn lower_byte(b: u8) -> u8 {
    if 65 <= b <= 90 {
        (b + 32) as u8
    } else {
        b
    }
}

/// ASCII lower-casing, a whole token.
pub open spec fn spec_lower(s: Seq<u8>) -> Seq<u8> {
    Seq::new(s.len(), |i: int| lower_byte(s[i]))
}

/// Fold a token to lower case.
pub fn to_lower(s: &[u8]) -> (r: Vec<u8>)
    ensures
        r@ == spec_lower(s@),
{
    let n = s.len();
    let mut r: Vec<u8> = Vec::new();
    let mut i: usize = 0;
    while i < n
        invariant
            0 <= i <= n,
            n == s@.len(),
            r@ == spec_lower(s@).take(i as int),
        decreases n - i,
    {
        let b = s[i];
        if 65 <= b && b <= 90 {
            r.push(b + 32);
        } else {
            r.push(b);
        }
        proof {
            assert(r@ =~= spec_lower(s@).take(i as int + 1));
        }
        i = i + 1;
    }
    proof {
        assert(spec_lower(s@).take(n as int) =~= spec_lower(s@));
    }
    r
}

/// A decimal digit.
pub open spec fn is_digit(b: u8) -> bool {
    48 <= b <= 57
}

/// A hexadecimal digit.
pub open spec fn is_hex_digit(b: u8) -> bool {
    is_digit(b) || (97 <= b <= 102) || (65 <= b <= 70)
}

pub open spec fn hex_digit_val(b: u8) -> nat {
    if is_digit(b) {
        (b - 48) as nat
    } else if 97 <= b <= 102 {
        (b - 87) as nat
    } else {
        (b - 55) as nat
    }
}

/// Every byte a decimal digit, and at least one.
pub open spec fn all_digits(s: Seq<u8>) -> bool {
    s.len() > 0 && forall|i: int| 0 <= i < s.len() ==> is_digit(#[trigger] s[i])
}

/// Every byte a hex digit, and at least one.
pub open spec fn all_hex_digits(s: Seq<u8>) -> bool {
    s.len() > 0 && forall|i: int| 0 <= i < s.len() ==> is_hex_digit(#[trigger] s[i])
}

/// The value of a decimal digit string.
pub open spec fn dec_val(s: Seq<u8>) -> nat
    decreases s.len(),
{
    if s.len() == 0 {
        0
    } else {
        dec_val(s.drop_last()) * 10 + (s.last() - 48) as nat
    }
}

/// The value of a hex digit string.
pub open spec fn hex_val(s: Seq<u8>) -> nat
    decreases s.len(),
{
    if s.len() == 0 {
        0
    } else {
        hex_val(s.drop_last()) * 16 + hex_digit_val(s.last())
    }
}

/// Parse a decimal digit string bounded by `u32::MAX`; `None` for an empty
/// string, a non-digit, or overflow.
pub fn parse_dec_u32(s: &[u8]) -> (r: Option<u32>)
    ensures
        r is Some <==> all_digits(s@) && dec_val(s@) <= u32::MAX,
        r is Some ==> r->0 == dec_val(s@),
{
    let n = s.len();
    if n == 0 {
        return None;
    }
    let mut acc: u32 = 0;
    let mut i: usize = 0;
    while i < n
        invariant
            0 <= i <= n,
            n == s@.len(),
            forall|k: int| 0 <= k < i ==> is_digit(#[trigger] s@[k]),
            acc == dec_val(s@.take(i as int)),
            dec_val(s@.take(i as int)) <= u32::MAX,
        decreases n - i,
    {
        let b = s[i];
        if !(48 <= b && b <= 57) {
            return None;
        }
        let d = (b - 48) as u32;
        if acc > (u32::MAX - d) / 10 {
            proof {
                lemma_dec_val_monotone(s@, i as int);
                assert(s@.take(i as int + 1).drop_last() =~= s@.take(i as int));
            }
            return None;
        }
        acc = acc * 10 + d;
        proof {
            assert(s@.take(i as int + 1).drop_last() =~= s@.take(i as int));
            assert(s@.take(i as int + 1).last() == s@[i as int]);
        }
        i = i + 1;
    }
    proof {
        assert(s@.take(n as int) =~= s@);
    }
    Some(acc)
}

/// A longer digit prefix never has a smaller value.
proof fn lemma_dec_val_monotone(s: Seq<u8>, i: int)
    requires
        0 <= i < s.len(),
        forall|k: int| 0 <= k <= i ==> is_digit(#[trigger] s[k]),
    ensures
        dec_val(s.take(i + 1)) >= dec_val(s.take(i)) * 10,
        forall|j: int|
            i + 1 <= j <= s.len() && (forall|k: int| 0 <= k < j ==> is_digit(#[trigger] s[k]))
                ==> dec_val(#[trigger] s.take(j)) >= dec_val(s.take(i + 1)),
    decreases s.len() - i,
{
    assert(s.take(i + 1).drop_last() =~= s.take(i));
    assert forall|j: int|
        i + 1 <= j <= s.len() && (forall|k: int| 0 <= k < j ==> is_digit(#[trigger] s[k]))
            implies dec_val(#[trigger] s.take(j)) >= dec_val(s.take(i + 1)) by {
        lemma_dec_val_prefix(s, i + 1, j);
    }
}

/// A digit string's value only grows as it extends.
proof fn lemma_dec_val_prefix(s: Seq<u8>, i: int, j: int)
    requires
        0 <= i <= j <= s.len(),
        forall|k: int| 0 <= k < j ==> is_digit(#[trigger] s[k]),
    ensures
        dec_val(s.take(j)) >= dec_val(s.take(i)),
    decreases j - i,
{
    if j > i {
        lemma_dec_val_prefix(s, i, j - 1);
        assert(s.take(j).drop_last() =~= s.take(j - 1));
    }
}

/// Parse a hex digit string bounded by `u32::MAX`; `None` for an empty
/// string, a non-digit, or overflow.
pub fn parse_hex_u32(s: &[u8]) -> (r: Option<u32>)
    ensures
        r is Some <==> all_hex_digits(s@) && hex_val(s@) <= u32::MAX,
        r is Some ==> r->0 == hex_val(s@),
{
    let n = s.len();
    if n == 0 {
        return None;
    }
    let mut acc: u32 = 0;
    let mut i: usize = 0;
    while i < n
        invariant
            0 <= i <= n,
            n == s@.len(),
            forall|k: int| 0 <= k < i ==> is_hex_digit(#[trigger] s@[k]),
            acc == hex_val(s@.take(i as int)),
            hex_val(s@.take(i as int)) <= u32::MAX,
        decreases n - i,
    {
        let b = s[i];
        let d: u32 = if 48 <= b && b <= 57 {
            (b - 48) as u32
        } else if 97 <= b && b <= 102 {
            (b - 87) as u32
        } else if 65 <= b && b <= 70 {
            (b - 55) as u32
        } else {
            return None;
        };
        if acc > (u32::MAX - d) / 16 {
            proof {
                lemma_hex_val_monotone(s@, i as int);
                assert(s@.take(i as int + 1).drop_last() =~= s@.take(i as int));
            }
            return None;
        }
        acc = acc * 16 + d;
        proof {
            assert(s@.take(i as int + 1).drop_last() =~= s@.take(i as int));
            assert(s@.take(i as int + 1).last() == s@[i as int]);
        }
        i = i + 1;
    }
    proof {
        assert(s@.take(n as int) =~= s@);
    }
    Some(acc)
}

/// A longer hex prefix never has a smaller value.
proof fn lemma_hex_val_monotone(s: Seq<u8>, i: int)
    requires
        0 <= i < s.len(),
        forall|k: int| 0 <= k <= i ==> is_hex_digit(#[trigger] s[k]),
    ensures
        hex_val(s.take(i + 1)) >= hex_val(s.take(i)) * 16,
        forall|j: int|
            i + 1 <= j <= s.len() && (forall|k: int| 0 <= k < j ==> is_hex_digit(#[trigger] s[k]))
                ==> hex_val(#[trigger] s.take(j)) >= hex_val(s.take(i + 1)),
    decreases s.len() - i,
{
    assert(s.take(i + 1).drop_last() =~= s.take(i));
    assert forall|j: int|
        i + 1 <= j <= s.len() && (forall|k: int| 0 <= k < j ==> is_hex_digit(#[trigger] s[k]))
            implies hex_val(#[trigger] s.take(j)) >= hex_val(s.take(i + 1)) by {
        lemma_hex_val_prefix(s, i + 1, j);
    }
}

/// A hex string's value only grows as it extends.
proof fn lemma_hex_val_prefix(s: Seq<u8>, i: int, j: int)
    requires
        0 <= i <= j <= s.len(),
        forall|k: int| 0 <= k < j ==> is_hex_digit(#[trigger] s[k]),
    ensures
        hex_val(s.take(j)) >= hex_val(s.take(i)),
    decreases j - i,
{
    if j > i {
        lemma_hex_val_prefix(s, i, j - 1);
        assert(s.take(j).drop_last() =~= s.take(j - 1));
    }
}

} // verus!
