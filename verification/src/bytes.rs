use vstd::prelude::*;

verus! {

/// True when `h` holds `n` as a contiguous subsequence.
pub open spec fn contains_seq(h: Seq<u8>, n: Seq<u8>) -> bool {
    exists|i: int| 0 <= i && i + n.len() <= h.len() && #[trigger] h.subrange(i, i + n.len()) == n
}

/// Whether the bytes of `h` starting at `at` are exactly `n`.
pub fn matches_at(h: &[u8], n: &[u8], at: usize) -> (r: bool)
    requires
        at + n@.len() <= h@.len(),
    ensures
        r == (h@.subrange(at as int, at + n@.len()) == n@),
{
    let hl = h.len();
    let mut j: usize = 0;
    while j < n.len()
        invariant
            at + n@.len() <= h@.len(),
            hl == h@.len(),
            0 <= j <= n@.len(),
            forall|k: int| 0 <= k < j ==> h@[at + k] == n@[k],
        decreases n@.len() - j,
    {
        if h[at + j] != n[j] {
            assert(h@.subrange(at as int, at + n@.len())[j as int] != n@[j as int]);
            return false;
        }
        j = j + 1;
    }
    assert(h@.subrange(at as int, at + n@.len()) =~= n@);
    true
}

/// Substring search: whether `h` holds `n` anywhere.
pub fn contains_sub(h: &[u8], n: &[u8]) -> (r: bool)
    ensures
        r == contains_seq(h@, n@),
{
    if n.len() > h.len() {
        assert(!contains_seq(h@, n@));
        return false;
    }
    let stop = h.len() - n.len();
    let mut i: usize = 0;
    loop
        invariant
            n@.len() <= h@.len(),
            stop == h@.len() - n@.len(),
            0 <= i <= stop,
            forall|k: int| 0 <= k < i ==> #[trigger] h@.subrange(k, k + n@.len()) != n@,
        decreases stop - i,
    {
        if matches_at(h, n, i) {
            assert(contains_seq(h@, n@));
            return true;
        }
        if i == stop {
            assert(!contains_seq(h@, n@));
            return false;
        }
        i = i + 1;
    }
}

/// Byte-for-byte equality of two slices.
pub fn slice_eq(a: &[u8], b: &[u8]) -> (r: bool)
    ensures
        r == (a@ == b@),
{
    if a.len() != b.len() {
        return false;
    }
    let r = matches_at(a, b, 0);
    assert(a@.subrange(0, b@.len() as int) =~= a@);
    r
}

/// Whether `p` is a prefix of `s`.
pub fn starts_with(s: &[u8], p: &[u8]) -> (r: bool)
    ensures
        r == p@.is_prefix_of(s@),
{
    if p.len() > s.len() {
        return false;
    }
    let r = matches_at(s, p, 0);
    assert(p@.is_prefix_of(s@) == (s@.subrange(0, p@.len() as int) == p@));
    r
}

/// Whether `x` is a suffix of `s`.
pub fn ends_with(s: &[u8], x: &[u8]) -> (r: bool)
    ensures
        r == x@.is_suffix_of(s@),
{
    if x.len() > s.len() {
        return false;
    }
    let at = s.len() - x.len();
    let r = matches_at(s, x, at);
    assert(x@.is_suffix_of(s@) == (s@.subrange(at as int, s@.len() as int) == x@));
    r
}

/// The first index at or after `from` where `s` holds `c`; `s.len()` when
/// there is none.
pub open spec fn find_ch(s: Seq<u8>, c: u8, from: int) -> int
    decreases s.len() - from,
{
    if from < 0 || from >= s.len() {
        s.len() as int
    } else if s[from] == c {
        from
    } else {
        find_ch(s, c, from + 1)
    }
}

pub proof fn lemma_find_ch_bounds(s: Seq<u8>, c: u8, from: int)
    requires
        0 <= from <= s.len(),
    ensures
        from <= find_ch(s, c, from) <= s.len(),
        find_ch(s, c, from) < s.len() ==> s[find_ch(s, c, from)] == c,
        forall|j: int| from <= j < find_ch(s, c, from) ==> s[j] != c,
    decreases s.len() - from,
{
    if from < s.len() && s[from] != c {
        lemma_find_ch_bounds(s, c, from + 1);
    }
}

/// Finds the first occurrence of `c` in `s` at or after `from`.
pub fn find_byte(s: &[u8], c: u8, from: usize) -> (r: Option<usize>)
    requires
        from <= s@.len(),
    ensures
        match r {
            Some(i) => from <= i < s@.len() && i == find_ch(s@, c, from as int),
            None => find_ch(s@, c, from as int) == s@.len(),
        },
{
    let mut i: usize = from;
    loop
        invariant
            from <= i <= s@.len(),
            find_ch(s@, c, from as int) == find_ch(s@, c, i as int),
        decreases s@.len() - i,
    {
        if i >= s.len() {
            return None;
        }
        if s[i] == c {
            return Some(i);
        }
        i = i + 1;
    }
}

/// The value of one hexadecimal digit, upper or lower case.
pub open spec fn hex_val(c: u8) -> Option<u8> {
    if 0x30 <= c <= 0x39 {
        Some((c - 0x30) as u8)
    } else if 0x61 <= c <= 0x66 {
        Some((c - 0x61 + 10) as u8)
    } else if 0x41 <= c <= 0x46 {
        Some((c - 0x41 + 10) as u8)
    } else {
        None
    }
}

/// Hexadecimal decoding: `None` on an odd length or a non-hex digit, else
/// one byte for each digit pair.
pub open spec fn hex_decode_seq(s: Seq<u8>) -> Option<Seq<u8>> {
    if s.len() % 2 == 0 && (forall|k: int| 0 <= k < s.len() ==> hex_val(#[trigger] s[k]) is Some) {
        Some(
            Seq::new(
                (s.len() / 2) as nat,
                |k: int| (hex_val(s[2 * k]).unwrap() * 16 + hex_val(s[2 * k + 1]).unwrap()) as u8,
            ),
        )
    } else {
        None
    }
}

fn hex_digit(c: u8) -> (r: Option<u8>)
    ensures
        r == hex_val(c),
{
    if 0x30 <= c && c <= 0x39 {
        Some(c - 0x30)
    } else if 0x61 <= c && c <= 0x66 {
        Some(c - 0x61 + 10)
    } else if 0x41 <= c && c <= 0x46 {
        Some(c - 0x41 + 10)
    } else {
        None
    }
}

/// Decodes a hexadecimal string into bytes, two digits for each byte.
pub fn hex_decode(s: &[u8]) -> (r: Option<Vec<u8>>)
    ensures
        match r {
            Some(v) => hex_decode_seq(s@) == Some(v@),
            None => hex_decode_seq(s@) is None,
        },
{
    let n = s.len();
    if n % 2 != 0 {
        return None;
    }
    let mut out: Vec<u8> = Vec::new();
    let mut k: usize = 0;
    while k < n / 2
        invariant
            n == s@.len(),
            n % 2 == 0,
            0 <= k <= n / 2,
            out@.len() == k,
            forall|m: int| 0 <= m < 2 * k ==> hex_val(#[trigger] s@[m]) is Some,
            forall|m: int| 0 <= m < k ==> out@[m] == (hex_val(s@[2 * m]).unwrap() * 16 + hex_val(
                s@[2 * m + 1],
            ).unwrap()) as u8,
        decreases n / 2 - k,
    {
        let hi = hex_digit(s[2 * k]);
        let lo = hex_digit(s[2 * k + 1]);
        match (hi, lo) {
            (Some(h), Some(l)) => {
                out.push(h * 16 + l);
            },
            _ => {
                assert(hex_decode_seq(s@) is None);
                return None;
            },
        }
        k = k + 1;
    }
    assert(forall|m: int| 0 <= m < s@.len() ==> hex_val(#[trigger] s@[m]) is Some) by {
        assert(2 * (n / 2) == n);
    }
    assert(out@ =~= hex_decode_seq(s@).unwrap());
    Some(out)
}

/// The decimal digits of `n`, most significant first.
pub open spec fn dec_digits(n: nat) -> Seq<u8>
    decreases n,
{
    if n < 10 {
        seq![(0x30 + n) as u8]
    } else {
        dec_digits(n / 10).push((0x30 + n % 10) as u8)
    }
}

/// Appends the decimal form of `n` to `out`.
pub fn push_dec(out: &mut Vec<u8>, n: u64)
    ensures
        final(out)@ == old(out)@ + dec_digits(n as nat),
    decreases n,
{
    if n < 10 {
        out.push(0x30 + n as u8);
        assert(out@ =~= old(out)@ + dec_digits(n as nat));
    } else {
        assert(n / 10 < n && n / 10 >= 1) by (nonlinear_arith)
            requires
                n >= 10,
        ;
        push_dec(out, n / 10);
        out.push(0x30 + (n % 10) as u8);
        assert(out@ =~= old(out)@ + dec_digits(n as nat));
    }
}

/// The first index at or after `from` where `n` occurs in `h`; `-1` when it
/// occurs nowhere at or after `from`.
pub open spec fn find_sub(h: Seq<u8>, n: Seq<u8>, from: int) -> int
    decreases h.len() + 1 - from,
    when 0 <= from
{
    if from + n.len() > h.len() {
        -1
    } else if h.subrange(from, from + n.len()) == n {
        from
    } else {
        find_sub(h, n, from + 1)
    }
}

/// Finds the first occurrence of `n` in `h` at or after `from`.
pub fn find_subseq(h: &[u8], n: &[u8], from: usize) -> (r: Option<usize>)
    ensures
        match r {
            Some(i) => i == find_sub(h@, n@, from as int) && from <= i && i + n@.len()
                <= h@.len(),
            None => find_sub(h@, n@, from as int) == -1,
        },
{
    let hl = h.len();
    let nl = n.len();
    if nl == 0 {
        if from > hl {
            return None;
        }
        assert(h@.subrange(from as int, from as int) =~= n@);
        return Some(from);
    }
    let mut i: usize = from;
    loop
        invariant
            from <= i,
            hl == h@.len(),
            nl == n@.len(),
            nl >= 1,
            find_sub(h@, n@, from as int) == find_sub(h@, n@, i as int),
        decreases h@.len() + 1 - i,
    {
        if i > hl || nl > hl - i {
            return None;
        }
        if matches_at(h, n, i) {
            return Some(i);
        }
        i = i + 1;
    }
}

pub proof fn lemma_find_sub_bounds(h: Seq<u8>, n: Seq<u8>, from: int)
    requires
        0 <= from,
    ensures
        find_sub(h, n, from) == -1 || (from <= find_sub(h, n, from) && find_sub(h, n, from)
            + n.len() <= h.len()),
    decreases h.len() + 1 - from,
{
    if from + n.len() <= h.len() && h.subrange(from, from + n.len()) != n {
        lemma_find_sub_bounds(h, n, from + 1);
    }
}

/// The position right after the last occurrence of `pat` at or after
/// `from`; `from` itself when `pat` occurs nowhere there.
pub open spec fn last_sub_end(s: Seq<u8>, pat: Seq<u8>, from: int) -> int
    decreases s.len() + 1 - from,
    when 0 <= from && pat.len() > 0
{
    let i = find_sub(s, pat, from);
    proof {
        lemma_find_sub_bounds(s, pat, from);
    }
    if i < 0 {
        from
    } else {
        last_sub_end(s, pat, i + pat.len())
    }
}

/// Finds the position right after the last occurrence of `pat`.
pub fn find_last_sub_end(s: &[u8], pat: &[u8]) -> (r: usize)
    requires
        pat@.len() > 0,
    ensures
        r == last_sub_end(s@, pat@, 0),
        r <= s@.len(),
{
    let sl = s.len();
    let pl = pat.len();
    let mut p: usize = 0;
    loop
        invariant
            pat@.len() > 0,
            sl == s@.len(),
            pl == pat@.len(),
            0 <= p <= s@.len(),
            last_sub_end(s@, pat@, 0) == last_sub_end(s@, pat@, p as int),
        decreases s@.len() + 1 - p,
    {
        match find_subseq(s, pat, p) {
            Some(i) => {
                assert(i + pl <= sl);
                p = i + pl;
            },
            None => {
                return p;
            },
        }
    }
}

/// The numeric value of a run of decimal digits, most significant first.
pub open spec fn digits_val(s: Seq<u8>) -> int
    decreases s.len(),
{
    if s.len() == 0 {
        0
    } else {
        digits_val(s.drop_last()) * 10 + (s.last() - 0x30)
    }
}

/// The number a byte string denotes: `None` unless it is one or more
/// decimal digits and nothing else.
pub open spec fn parse_dec(s: Seq<u8>) -> Option<int> {
    if s.len() > 0 && (forall|i: int| 0 <= i < s.len() ==> 0x30 <= #[trigger] s[i] <= 0x39) {
        Some(digits_val(s))
    } else {
        None
    }
}

proof fn lemma_digits_val_step(s: Seq<u8>, j: int)
    requires
        0 <= j < s.len(),
        forall|i: int| 0 <= i <= j ==> 0x30 <= #[trigger] s[i] <= 0x39,
    ensures
        digits_val(s.take(j + 1)) == digits_val(s.take(j)) * 10 + (s[j] - 0x30),
        digits_val(s.take(j)) >= 0,
    decreases j,
{
    assert(s.take(j + 1).drop_last() =~= s.take(j));
    if j > 0 {
        lemma_digits_val_step(s, j - 1);
        assert(digits_val(s.take(j)) >= 0) by (nonlinear_arith)
            requires
                digits_val(s.take(j)) == digits_val(s.take(j - 1)) * 10 + (s[j - 1] - 0x30),
                digits_val(s.take(j - 1)) >= 0,
                0x30 <= s[j - 1] <= 0x39,
        ;
    }
}

proof fn lemma_digits_val_grows(s: Seq<u8>, j: int)
    requires
        0 <= j <= s.len(),
        forall|i: int| 0 <= i < s.len() ==> 0x30 <= #[trigger] s[i] <= 0x39,
    ensures
        digits_val(s) >= digits_val(s.take(j)),
        digits_val(s.take(j)) >= 0,
    decreases s.len() - j,
{
    if j == s.len() {
        assert(s.take(j) =~= s);
        if j > 0 {
            lemma_digits_val_step(s, j - 1);
        }
    } else {
        lemma_digits_val_grows(s, j + 1);
        lemma_digits_val_step(s, j);
        assert(digits_val(s.take(j + 1)) >= digits_val(s.take(j))) by (nonlinear_arith)
            requires
                digits_val(s.take(j + 1)) == digits_val(s.take(j)) * 10 + (s[j] - 0x30),
                digits_val(s.take(j)) >= 0,
                0x30 <= s[j] <= 0x39,
        ;
    }
}

/// Parses a decimal number. `None` on an empty or non-numeric string, and
/// on a value that does not fit.
pub fn parse_i32(s: &[u8]) -> (r: Option<i32>)
    ensures
        match r {
            Some(v) => parse_dec(s@) == Some(v as int),
            None => parse_dec(s@) is None || parse_dec(s@).unwrap() > i32::MAX,
        },
{
    if s.len() == 0 {
        return None;
    }
    let mut acc: i32 = 0;
    let mut i: usize = 0;
    while i < s.len()
        invariant
            0 < s@.len(),
            0 <= i <= s@.len(),
            forall|k: int| 0 <= k < i ==> 0x30 <= #[trigger] s@[k] <= 0x39,
            acc >= 0,
            acc == digits_val(s@.take(i as int)),
        decreases s@.len() - i,
    {
        let c = s[i];
        if c < 0x30 || c > 0x39 {
            return None;
        }
        assert(forall|k: int| 0 <= k <= i ==> 0x30 <= #[trigger] s@[k] <= 0x39);
        let d = (c - 0x30) as i32;
        if acc > (i32::MAX - d) / 10 {
            // The digits read so far already exceed the type's range.
            proof {
                let ghost w = s@;
                if parse_dec(w) is Some {
                    lemma_digits_val_step(w, i as int);
                    lemma_digits_val_grows(w, i + 1);
                    assert(digits_val(w.take(i + 1)) > i32::MAX) by (nonlinear_arith)
                        requires
                            digits_val(w.take(i + 1)) == digits_val(w.take(i as int)) * 10 + (
                            w[i as int] - 0x30),
                            digits_val(w.take(i as int)) == acc,
                            acc > (i32::MAX - (w[i as int] - 0x30)) / 10,
                            acc >= 0,
                            0x30 <= w[i as int] <= 0x39,
                    ;
                }
            }
            return None;
        }
        proof {
            lemma_digits_val_step(s@, i as int);
            assert(acc * 10 + d <= i32::MAX) by (nonlinear_arith)
                requires
                    0 <= acc,
                    0 <= d <= 9,
                    acc <= (i32::MAX - d) / 10,
            ;
        }
        acc = acc * 10 + d;
        i = i + 1;
    }
    assert(s@.take(s@.len() as int) =~= s@);
    Some(acc)
}

/// Appends all of `s` to `out`.
pub fn push_all(out: &mut Vec<u8>, s: &[u8])
    ensures
        final(out)@ == old(out)@ + s@,
{
    let mut i: usize = 0;
    while i < s.len()
        invariant
            0 <= i <= s@.len(),
            out@ == old(out)@ + s@.take(i as int),
        decreases s@.len() - i,
    {
        out.push(s[i]);
        assert(out@ =~= old(out)@ + s@.take(i + 1));
        i = i + 1;
    }
    assert(out@ =~= old(out)@ + s@);
}

} // verus!
