use vstd::prelude::*;

verus! {

/// ASCII decimal digit.
pub open spec fn is_digit(b: u8) -> bool {
    0x30 <= b <= 0x39
}

/// ASCII whitespace, as trimming treats it: tab through carriage return, and space.
pub open spec fn is_space(b: u8) -> bool {
    b == 0x20 || (0x09 <= b <= 0x0d)
}

/// Index of the first non-digit byte at or after `i`.
pub open spec fn digits_end(s: Seq<u8>, i: int) -> int
    decreases s.len() - i,
    when 0 <= i <= s.len()
{
    if i < s.len() && is_digit(s[i]) {
        digits_end(s, i + 1)
    } else {
        i
    }
}

pub proof fn lemma_digits_end(s: Seq<u8>, i: int)
    requires
        0 <= i <= s.len(),
    ensures
        i <= digits_end(s, i) <= s.len(),
        forall|k: int| i <= k < digits_end(s, i) ==> is_digit(s[k]),
        digits_end(s, i) < s.len() ==> !is_digit(s[digits_end(s, i)]),
    decreases s.len() - i,
{
    if i < s.len() && is_digit(s[i]) {
        lemma_digits_end(s, i + 1);
    }
}

/// Numeric value of the decimal digits `s[i..j]`, most significant first.
pub open spec fn dec_value(s: Seq<u8>, i: int, j: int) -> nat
    decreases j - i,
    when i <= j
{
    if i < j {
        dec_value(s, i, j - 1) * 10 + (s[j - 1] - 0x30) as nat
    } else {
        0
    }
}

/// Scan to the end of the run of decimal digits starting at `from`.
pub fn scan_digits(s: &[u8], from: usize) -> (j: usize)
    requires
        from <= s@.len(),
    ensures
        j == digits_end(s@, from as int),
        from <= j <= s@.len(),
        forall|k: int| from <= k < j ==> is_digit(s@[k]),
{
    let mut j: usize = from;
    while j < s.len() && 0x30 <= s[j] && s[j] <= 0x39
        invariant
            from <= j <= s@.len(),
            digits_end(s@, from as int) == digits_end(s@, j as int),
            forall|k: int| from <= k < j ==> is_digit(s@[k]),
        decreases s@.len() - j,
    {
        assert(digits_end(s@, j as int) == digits_end(s@, j + 1));
        j = j + 1;
    }
    j
}

/// Value of at most three decimal digits `s[i..j]`.
pub fn dec_value_upto3(s: &[u8], i: usize, j: usize) -> (v: u32)
    requires
        i <= j <= s@.len(),
        j - i <= 3,
        forall|k: int| i <= k < j ==> is_digit(s@[k]),
    ensures
        v == dec_value(s@, i as int, j as int),
        v <= 999,
{
    let mut v: u32 = 0;
    let mut k: usize = i;
    while k < j
        invariant
            i <= k <= j <= s@.len(),
            j - i <= 3,
            forall|m: int| i <= m < j ==> is_digit(s@[m]),
            v == dec_value(s@, i as int, k as int),
            v < if k - i == 0 { 1nat } else if k - i == 1 { 10nat } else if k - i == 2 { 100nat } else { 1000nat },
        decreases j - k,
    {
        v = v * 10 + (s[k] - 0x30) as u32;
        k = k + 1;
    }
    v
}

/// The digit run from `i` ends exactly where the digits end.
pub proof fn lemma_digits_end_is(s: Seq<u8>, i: int, j: int)
    requires
        0 <= i <= j <= s.len(),
        forall|k: int| i <= k < j ==> is_digit(s[k]),
        j < s.len() ==> !is_digit(s[j]),
    ensures
        digits_end(s, i) == j,
    decreases j - i,
{
    if i < j {
        lemma_digits_end_is(s, i + 1, j);
    }
}

/// The value of a digit run depends only on the digits it spans.
pub proof fn lemma_dec_value_shift(s: Seq<u8>, t: Seq<u8>, off: int, i: int, j: int)
    requires
        i <= j,
        0 <= i + off,
        j + off <= s.len(),
        0 <= i,
        j <= t.len(),
        forall|k: int| i <= k < j ==> s[k + off] == t[k],
    ensures
        dec_value(s, i + off, j + off) == dec_value(t, i, j),
    decreases j - i,
{
    if i < j {
        lemma_dec_value_shift(s, t, off, i, j - 1);
    }
}

/// First occurrence of byte `b` at or after `i`, or the length if none.
pub open spec fn find_from(s: Seq<u8>, b: u8, i: int) -> int
    decreases s.len() - i,
    when 0 <= i <= s.len()
{
    if i < s.len() {
        if s[i] == b {
            i
        } else {
            find_from(s, b, i + 1)
        }
    } else {
        i
    }
}

pub proof fn lemma_find_from(s: Seq<u8>, b: u8, i: int)
    requires
        0 <= i <= s.len(),
    ensures
        i <= find_from(s, b, i) <= s.len(),
        forall|k: int| i <= k < find_from(s, b, i) ==> s[k] != b,
        find_from(s, b, i) < s.len() ==> s[find_from(s, b, i)] == b,
    decreases s.len() - i,
{
    if i < s.len() && s[i] != b {
        lemma_find_from(s, b, i + 1);
    }
}

pub fn find_byte_from(s: &[u8], b: u8, from: usize) -> (j: usize)
    requires
        from <= s@.len(),
    ensures
        j == find_from(s@, b, from as int),
{
    let mut j: usize = from;
    while j < s.len() && s[j] != b
        invariant
            from <= j <= s@.len(),
            find_from(s@, b, from as int) == find_from(s@, b, j as int),
        decreases s@.len() - j,
    {
        assert(find_from(s@, b, j as int) == find_from(s@, b, j + 1));
        j = j + 1;
    }
    j
}

/// Whether `s` holds byte `b` anywhere.
pub open spec fn contains_byte(s: Seq<u8>, b: u8) -> bool {
    find_from(s, b, 0) < s.len()
}

pub fn has_byte(s: &[u8], b: u8) -> (r: bool)
    ensures
        r == contains_byte(s@, b),
{
    let j = find_byte_from(s, b, 0);
    proof {
        lemma_find_from(s@, b, 0);
    }
    j < s.len()
}

/// `s` with leading and trailing ASCII whitespace removed.
pub open spec fn trim_of(s: Seq<u8>) -> Seq<u8>
    decreases s.len(),
{
    if s.len() > 0 && is_space(s[0]) {
        trim_of(s.subrange(1, s.len() as int))
    } else if s.len() > 0 && is_space(s[s.len() - 1]) {
        trim_of(s.subrange(0, s.len() - 1))
    } else {
        s
    }
}

pub fn trim(s: &[u8], from: usize, to: usize) -> (r: Vec<u8>)
    requires
        from <= to <= s@.len(),
    ensures
        r@ == trim_of(s@.subrange(from as int, to as int)),
{
    let mut lo: usize = from;
    let mut hi: usize = to;
    while lo < hi && (s[lo] == 0x20 || (0x09 <= s[lo] && s[lo] <= 0x0d))
        invariant
            from <= lo <= hi <= to <= s@.len(),
            trim_of(s@.subrange(from as int, to as int)) == trim_of(s@.subrange(lo as int, hi as int)),
        decreases hi - lo,
    {
        proof {
            let cur = s@.subrange(lo as int, hi as int);
            assert(cur[0] == s@[lo as int]);
            assert(cur.subrange(1, cur.len() as int) =~= s@.subrange(lo + 1, hi as int));
        }
        lo = lo + 1;
    }
    while lo < hi && (s[hi - 1] == 0x20 || (0x09 <= s[hi - 1] && s[hi - 1] <= 0x0d))
        invariant
            from <= lo <= hi <= to <= s@.len(),
            trim_of(s@.subrange(from as int, to as int)) == trim_of(s@.subrange(lo as int, hi as int)),
            lo < hi ==> !is_space(s@[lo as int]),
        decreases hi - lo,
    {
        proof {
            let cur = s@.subrange(lo as int, hi as int);
            assert(cur[0] == s@[lo as int]);
            assert(cur[cur.len() - 1] == s@[hi - 1]);
            assert(cur.subrange(0, cur.len() - 1) =~= s@.subrange(lo as int, hi - 1));
        }
        hi = hi - 1;
    }
    let mut r: Vec<u8> = Vec::new();
    let mut k: usize = lo;
    while k < hi
        invariant
            lo <= k <= hi <= s@.len(),
            r@ == s@.subrange(lo as int, k as int),
        decreases hi - k,
    {
        r.push(s[k]);
        proof {
            assert(s@.subrange(lo as int, k as int).push(s@[k as int]) =~= s@.subrange(
                lo as int,
                k + 1,
            ));
        }
        k = k + 1;
    }
    proof {
        let fin = s@.subrange(lo as int, hi as int);
        if fin.len() > 0 {
            assert(fin[0] == s@[lo as int]);
            assert(fin[fin.len() - 1] == s@[hi - 1]);
        }
        assert(trim_of(fin) == fin);
    }
    r
}

} // verus!
