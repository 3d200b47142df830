//! Byte-string helpers shared by the whole engine: ASCII case mapping,
//! searching, splitting, copying, and decimal / hexadecimal numerals.
use vstd::prelude::*;

verus! {

/// Lower-cases one ASCII byte; other bytes are unchanged.
pub open spec fn spec_lower_byte(b: u8) -> u8 {
    if 65 <= b <= 90 { (b + 32) as u8 } else { b }
}

/// Upper-cases one ASCII byte; other bytes are unchanged.
pub open spec fn spec_upper_byte(b: u8) -> u8 {
    if 97 <= b <= 122 { (b - 32) as u8 } else { b }
}

/// Lower-cases a byte sequence, ASCII-wise.
pub open spec fn spec_lower(s: Seq<u8>) -> Seq<u8> {
    s.map_values(|b: u8| spec_lower_byte(b))
}

/// Upper-cases a byte sequence, ASCII-wise.
pub open spec fn spec_upper(s: Seq<u8>) -> Seq<u8> {
    s.map_values(|b: u8| spec_upper_byte(b))
}

/// Lower-cases a byte string, ASCII-wise.
pub fn lower(s: &Vec<u8>) -> (r: Vec<u8>)
    ensures
        r@ == spec_lower(s@),
{
    let mut r: Vec<u8> = Vec::new();
    let mut i: usize = 0;
    while i < s.len()
        invariant
            i <= s.len(),
            r@ == spec_lower(s@.take(i as int)),
        decreases s.len() - i,
    {
        let b = s[i];
        let lb = if 65 <= b && b <= 90 { b + 32 } else { b };
        r.push(lb);
        proof {
            assert(spec_lower(s@.take(i + 1)) =~= spec_lower(s@.take(i as int)).push(spec_lower_byte(s@[i as int])));
        }
        i = i + 1;
    }
    proof {
        assert(s@.take(s@.len() as int) =~= s@);
    }
    r
}

/// Upper-cases a byte string, ASCII-wise.
pub fn upper(s: &Vec<u8>) -> (r: Vec<u8>)
    ensures
        r@ == spec_upper(s@),
{
    let mut r: Vec<u8> = Vec::new();
    let mut i: usize = 0;
    while i < s.len()
        invariant
            i <= s.len(),
            r@ == spec_upper(s@.take(i as int)),
        decreases s.len() - i,
    {
        let b = s[i];
        let ub = if 97 <= b && b <= 122 { b - 32 } else { b };
        r.push(ub);
        proof {
            assert(spec_upper(s@.take(i + 1)) =~= spec_upper(s@.take(i as int)).push(spec_upper_byte(s@[i as int])));
        }
        i = i + 1;
    }
    proof {
        assert(s@.take(s@.len() as int) =~= s@);
    }
    r
}

/// Byte-wise equality of two byte strings.
pub fn bytes_eq(a: &Vec<u8>, b: &Vec<u8>) -> (r: bool)
    ensures
        r == (a@ == b@),
{
    if a.len() != b.len() {
        return false;
    }
    let mut i: usize = 0;
    while i < a.len()
        invariant
            i <= a.len(),
            a.len() == b.len(),
            forall|k: int| 0 <= k < i ==> a@[k] == b@[k],
        decreases a.len() - i,
    {
        if a[i] != b[i] {
            return false;
        }
        i = i + 1;
    }
    proof {
        assert(a@ =~= b@);
    }
    true
}

/// Copies the range `[from, to)` of a byte string.
pub fn subvec(v: &Vec<u8>, from: usize, to: usize) -> (r: Vec<u8>)
    requires
        from <= to <= v@.len(),
    ensures
        r@ == v@.subrange(from as int, to as int),
{
    let mut r: Vec<u8> = Vec::new();
    let mut i: usize = from;
    while i < to
        invariant
            from <= i <= to <= v@.len(),
            r@ == v@.subrange(from as int, i as int),
        decreases to - i,
    {
        r.push(v[i]);
        proof {
            assert(v@.subrange(from as int, i + 1) =~= v@.subrange(from as int, i as int).push(v@[i as int]));
        }
        i = i + 1;
    }
    r
}

/// Appends a copy of `src` to `dst`.
pub fn append_bytes(dst: &mut Vec<u8>, src: &Vec<u8>)
    ensures
        final(dst)@ == old(dst)@ + src@,
{
    let mut i: usize = 0;
    while i < src.len()
        invariant
            i <= src.len(),
            dst@ == old(dst)@ + src@.take(i as int),
        decreases src.len() - i,
    {
        dst.push(src[i]);
        proof {
            assert(old(dst)@ + src@.take(i + 1) =~= (old(dst)@ + src@.take(i as int)).push(src@[i as int]));
        }
        i = i + 1;
    }
    proof {
        assert(src@.take(src@.len() as int) =~= src@);
    }
}

/// Index of the first occurrence of `b` in `s` at position `from` or
/// later; `-1` when there is none.
pub open spec fn spec_find(s: Seq<u8>, from: int, b: u8) -> int
    decreases s.len() - from,
{
    if from < 0 || from >= s.len() {
        -1
    } else if s[from] == b {
        from
    } else {
        spec_find(s, from + 1, b)
    }
}

/// What `spec_find` returns: the first hit, or `-1` with no hit at all.
pub proof fn lemma_find_props(s: Seq<u8>, from: int, b: u8)
    requires
        0 <= from <= s.len(),
    ensures
        spec_find(s, from, b) == -1 ==> forall|k: int| from <= k < s.len() ==> s[k] != b,
        spec_find(s, from, b) != -1 ==> from <= spec_find(s, from, b) < s.len()
            && s[spec_find(s, from, b)] == b
            && (forall|k: int| from <= k < spec_find(s, from, b) ==> s[k] != b),
    decreases s.len() - from,
{
    if from < s.len() && s[from] != b {
        lemma_find_props(s, from + 1, b);
    }
}

/// `spec_find` is determined by the first-hit description.
pub proof fn lemma_find_unique(s: Seq<u8>, from: int, b: u8, j: int)
    requires
        0 <= from <= j < s.len(),
        s[j] == b,
        forall|k: int| from <= k < j ==> s[k] != b,
    ensures
        spec_find(s, from, b) == j,
{
    lemma_find_props(s, from, b);
    let f = spec_find(s, from, b);
    if f == -1 {
        assert(s[j] != b);
    } else if f < j {
        assert(s[f] != b);
    } else if f > j {
        assert(s[j] != b);
    }
}

/// First occurrence of `b` in `v` at position `from` or later.
pub fn find_byte(v: &Vec<u8>, from: usize, b: u8) -> (r: Option<usize>)
    requires
        from <= v@.len(),
    ensures
        match r {
            Some(j) => j == spec_find(v@, from as int, b) && from <= j < v@.len() && v@[j as int] == b,
            None => spec_find(v@, from as int, b) == -1,
        },
{
    let mut i: usize = from;
    while i < v.len()
        invariant
            from <= i <= v@.len(),
            forall|k: int| from <= k < i ==> v@[k] != b,
        decreases v.len() - i,
    {
        if v[i] == b {
            proof {
                lemma_find_unique(v@, from as int, b, i as int);
            }
            return Some(i);
        }
        i = i + 1;
    }
    proof {
        lemma_find_props(v@, from as int, b);
        if spec_find(v@, from as int, b) != -1 {
            assert(v@[spec_find(v@, from as int, b)] == b);
        }
    }
    None
}

/// Splits `s` at every occurrence of `d` from position `from` on; each
/// occurrence separates two (possibly empty) parts.
pub open spec fn spec_split_from(s: Seq<u8>, from: int, d: u8) -> Seq<Seq<u8>>
    recommends
        0 <= from <= s.len(),
    decreases s.len() - from,
{
    let i = spec_find(s, from, d);
    if i < from || i >= s.len() {
        seq![s.subrange(from, s.len() as int)]
    } else {
        seq![s.subrange(from, i)] + spec_split_from(s, i + 1, d)
    }
}

/// Splits `s` at every occurrence of `d`, as `str::split` does: a string
/// without the delimiter is one part, and nothing is dropped.
pub open spec fn spec_split(s: Seq<u8>, d: u8) -> Seq<Seq<u8>> {
    spec_split_from(s, 0, d)
}

/// Splits a byte string at every occurrence of `d`.
pub fn split(v: &Vec<u8>, d: u8) -> (r: Vec<Vec<u8>>)
    ensures
        r.deep_view() == spec_split(v@, d),
        r@.len() >= 1,
{
    let len = v.len();
    let mut parts: Vec<Vec<u8>> = Vec::new();
    let mut pos: usize = 0;
    loop
        invariant
            len == v@.len(),
            pos <= v@.len(),
            spec_split(v@, d) == parts.deep_view() + spec_split_from(v@, pos as int, d),
        decreases v@.len() - pos,
    {
        proof {
            lemma_find_props(v@, pos as int, d);
        }
        let ghost parts0 = parts.deep_view();
        match find_byte(v, pos, d) {
            Some(i) => {
                let part = subvec(v, pos, i);
                parts.push(part);
                proof {
                    assert(parts.deep_view() =~~= parts0.push(part@));
                    assert(spec_split(v@, d) =~~= parts.deep_view() + spec_split_from(v@, i + 1, d));
                }
                pos = i + 1;
            },
            None => {
                let part = subvec(v, pos, v.len());
                parts.push(part);
                proof {
                    assert(parts.deep_view() =~~= parts0.push(part@));
                    assert(spec_split_from(v@, pos as int, d) =~~= seq![part@]);
                    assert(spec_split(v@, d) =~~= parts.deep_view());
                }
                return parts;
            },
        }
    }
}

/// Whether `b` is an ASCII decimal digit.
pub open spec fn spec_is_digit(b: u8) -> bool {
    48 <= b <= 57
}

/// Whether every byte of `s` is a decimal digit.
pub open spec fn spec_all_digits(s: Seq<u8>) -> bool {
    forall|k: int| 0 <= k < s.len() ==> spec_is_digit(s[k])
}

/// The numeral value of a digit string, most significant digit first.
pub open spec fn spec_dec_val(s: Seq<u8>) -> int
    decreases s.len(),
{
    if s.len() == 0 {
        0
    } else {
        spec_dec_val(s.drop_last()) * 10 + (s.last() - 48)
    }
}

/// The value of a digit string is non-negative and weakly monotone in
/// its prefixes.
pub proof fn lemma_dec_val_nonneg(s: Seq<u8>)
    requires
        spec_all_digits(s),
    ensures
        spec_dec_val(s) >= 0,
        s.len() > 0 ==> spec_dec_val(s) >= spec_dec_val(s.drop_last()),
    decreases s.len(),
{
    if s.len() > 0 {
        assert(spec_all_digits(s.drop_last()));
        lemma_dec_val_nonneg(s.drop_last());
    }
}

/// Reads a non-negative decimal numeral: all bytes must be digits, the
/// string non-empty, and the value must fit a `usize`.
pub open spec fn spec_parse_dec(s: Seq<u8>) -> Option<int> {
    if s.len() == 0 || !spec_all_digits(s) || spec_dec_val(s) > usize::MAX {
        None
    } else {
        Some(spec_dec_val(s))
    }
}

/// Reads a non-negative decimal numeral from `v`.
pub fn parse_dec(v: &Vec<u8>) -> (r: Option<usize>)
    ensures
        match r {
            Some(n) => spec_parse_dec(v@) == Some(n as int),
            None => spec_parse_dec(v@) == None::<int>,
        },
{
    if v.len() == 0 {
        return None;
    }
    let mut acc: usize = 0;
    let mut i: usize = 0;
    while i < v.len()
        invariant
            i <= v@.len(),
            spec_all_digits(v@.take(i as int)),
            acc as int == spec_dec_val(v@.take(i as int)),
        decreases v.len() - i,
    {
        let b = v[i];
        if b < 48 || b > 57 {
            proof {
                assert(!spec_is_digit(v@[i as int]));
            }
            return None;
        }
        let d = (b - 48) as usize;
        proof {
            assert(v@.take(i + 1).drop_last() =~= v@.take(i as int));
            assert(spec_dec_val(v@.take(i + 1)) == spec_dec_val(v@.take(i as int)) * 10 + d);
        }
        if acc > usize::MAX / 10 {
            proof {
                lemma_dec_prefix_too_big(v@, i + 1);
            }
            return None;
        }
        acc = acc * 10;
        if acc > usize::MAX - d {
            proof {
                lemma_dec_prefix_too_big(v@, i + 1);
            }
            return None;
        }
        acc = acc + d;
        i = i + 1;
    }
    proof {
        assert(v@.take(v@.len() as int) =~= v@);
    }
    Some(acc)
}

/// A digit string is worth at least as much as any of its prefixes.
pub proof fn lemma_take_val_monotone(s: Seq<u8>, i: int)
    requires
        0 <= i <= s.len(),
        spec_all_digits(s),
    ensures
        spec_dec_val(s) >= spec_dec_val(s.take(i)),
    decreases s.len() - i,
{
    if i < s.len() {
        lemma_take_val_monotone(s, i + 1);
        assert(s.take(i + 1).drop_last() =~= s.take(i));
        assert(spec_all_digits(s.take(i + 1)));
        lemma_dec_val_nonneg(s.take(i + 1));
    } else {
        assert(s.take(i) =~= s);
    }
}

/// A decimal numeral with a prefix already past `usize::MAX` is rejected.
pub proof fn lemma_dec_prefix_too_big(s: Seq<u8>, i: int)
    requires
        0 <= i <= s.len(),
        spec_all_digits(s.take(i)),
        spec_dec_val(s.take(i)) > usize::MAX,
    ensures
        spec_parse_dec(s) == None::<int>,
{
    if spec_all_digits(s) {
        lemma_take_val_monotone(s, i);
    }
}

/// The canonical decimal numeral of a non-negative number.
pub open spec fn spec_dec_of(n: int) -> Seq<u8>
    recommends
        n >= 0,
    decreases n,
{
    if n < 10 {
        seq![(48 + if n >= 0 { n } else { 0 }) as u8]
    } else {
        spec_dec_of(n / 10).push((48 + n % 10) as u8)
    }
}

/// Renders `n` as its canonical decimal numeral.
pub fn dec_of(n: usize) -> (r: Vec<u8>)
    ensures
        r@ == spec_dec_of(n as int),
    decreases n,
{
    if n < 10 {
        let v: Vec<u8> = vec![48 + n as u8];
        proof {
            assert(v@ =~= spec_dec_of(n as int));
        }
        v
    } else {
        let mut v = dec_of(n / 10);
        v.push(48 + (n % 10) as u8);
        v
    }
}

/// Reading the canonical numeral of `n` back gives `n`.
pub proof fn lemma_dec_round_trip(n: usize)
    ensures
        spec_parse_dec(spec_dec_of(n as int)) == Some(n as int),
    decreases n,
{
    lemma_dec_of_digits(n as int);
    assert(spec_dec_val(spec_dec_of(n as int)) == n as int) by {
        lemma_dec_of_val(n as int);
    }
}

/// The canonical numeral is non-empty and all digits.
pub proof fn lemma_dec_of_digits(n: int)
    requires
        n >= 0,
    ensures
        spec_dec_of(n).len() >= 1,
        spec_all_digits(spec_dec_of(n)),
    decreases n,
{
    if n >= 10 {
        lemma_dec_of_digits(n / 10);
        assert(spec_dec_of(n) =~= spec_dec_of(n / 10).push((48 + n % 10) as u8));
        assert(forall|k: int| 0 <= k < spec_dec_of(n).len() - 1 ==> spec_dec_of(n)[k] == spec_dec_of(n / 10)[k]);
    }
}

/// The canonical numeral of `n` is worth `n`.
pub proof fn lemma_dec_of_val(n: int)
    requires
        n >= 0,
    ensures
        spec_dec_val(spec_dec_of(n)) == n,
    decreases n,
{
    if n >= 10 {
        lemma_dec_of_val(n / 10);
        assert(spec_dec_of(n).drop_last() =~= spec_dec_of(n / 10));
        assert(spec_dec_of(n).last() == (48 + n % 10) as u8);
        vstd::arithmetic::div_mod::lemma_mod_bound(n, 10);
        assert(spec_dec_of(n).last() - 48 == n % 10);
        vstd::arithmetic::div_mod::lemma_fundamental_div_mod(n, 10);
        assert(spec_dec_val(spec_dec_of(n)) == (n / 10) * 10 + n % 10);
    } else {
        let s = spec_dec_of(n);
        assert(s =~= seq![(48 + n) as u8]);
        assert(s.len() == 1);
        assert(s.last() == (48 + n) as u8);
        assert(s.drop_last() =~= Seq::<u8>::empty());
        assert(spec_dec_val(s) == spec_dec_val(s.drop_last()) * 10 + (s.last() - 48));
        assert(spec_dec_val(s.drop_last()) == 0);
    }
}

/// The value of one hexadecimal digit; `-1` for other bytes.
pub open spec fn spec_hex_digit(b: u8) -> int {
    if 48 <= b <= 57 {
        b - 48
    } else if 97 <= b <= 102 {
        b - 87
    } else if 65 <= b <= 70 {
        b - 55
    } else {
        -1
    }
}

/// Whether every byte of `s` is a hexadecimal digit.
pub open spec fn spec_all_hex(s: Seq<u8>) -> bool {
    forall|k: int| 0 <= k < s.len() ==> spec_hex_digit(s[k]) >= 0
}

/// The numeral value of a hexadecimal digit string.
pub open spec fn spec_hex_val(s: Seq<u8>) -> int
    decreases s.len(),
{
    if s.len() == 0 {
        0
    } else {
        spec_hex_val(s.drop_last()) * 16 + spec_hex_digit(s.last())
    }
}

/// The value of a hex digit string is non-negative.
pub proof fn lemma_hex_val_nonneg(s: Seq<u8>)
    requires
        spec_all_hex(s),
    ensures
        spec_hex_val(s) >= 0,
        s.len() > 0 ==> spec_hex_val(s) >= spec_hex_val(s.drop_last()),
    decreases s.len(),
{
    if s.len() > 0 {
        assert(spec_all_hex(s.drop_last()));
        lemma_hex_val_nonneg(s.drop_last());
    }
}

/// A hex digit string is worth at least as much as any of its prefixes.
pub proof fn lemma_hex_take_val_monotone(s: Seq<u8>, i: int)
    requires
        0 <= i <= s.len(),
        spec_all_hex(s),
    ensures
        spec_hex_val(s) >= spec_hex_val(s.take(i)),
    decreases s.len() - i,
{
    if i < s.len() {
        lemma_hex_take_val_monotone(s, i + 1);
        assert(s.take(i + 1).drop_last() =~= s.take(i));
        assert(spec_all_hex(s.take(i + 1)));
        lemma_hex_val_nonneg(s.take(i + 1));
    } else {
        assert(s.take(i) =~= s);
    }
}

/// A hexadecimal numeral with a prefix already past `usize::MAX` is
/// rejected.
pub proof fn lemma_hex_prefix_too_big(s: Seq<u8>, i: int)
    requires
        0 <= i <= s.len(),
        spec_all_hex(s.take(i)),
        spec_hex_val(s.take(i)) > usize::MAX,
    ensures
        spec_parse_hex(s) == None::<int>,
{
    if spec_all_hex(s) {
        lemma_hex_take_val_monotone(s, i);
    }
}

/// Reads a hexadecimal numeral: all bytes must be hex digits, the string
/// non-empty, and the value must fit a `usize`.
pub open spec fn spec_parse_hex(s: Seq<u8>) -> Option<int> {
    if s.len() == 0 || !spec_all_hex(s) || spec_hex_val(s) > usize::MAX {
        None
    } else {
        Some(spec_hex_val(s))
    }
}

/// Reads a hexadecimal numeral from `v`.
pub fn parse_hex(v: &Vec<u8>) -> (r: Option<usize>)
    ensures
        match r {
            Some(n) => spec_parse_hex(v@) == Some(n as int),
            None => spec_parse_hex(v@) == None::<int>,
        },
{
    if v.len() == 0 {
        return None;
    }
    let mut acc: usize = 0;
    let mut i: usize = 0;
    while i < v.len()
        invariant
            i <= v@.len(),
            spec_all_hex(v@.take(i as int)),
            acc as int == spec_hex_val(v@.take(i as int)),
        decreases v.len() - i,
    {
        let b = v[i];
        let d: usize = if 48 <= b && b <= 57 {
            (b - 48) as usize
        } else if 97 <= b && b <= 102 {
            (b - 87) as usize
        } else if 65 <= b && b <= 70 {
            (b - 55) as usize
        } else {
            proof {
                assert(spec_hex_digit(v@[i as int]) < 0);
            }
            return None;
        };
        proof {
            assert(v@.take(i + 1).drop_last() =~= v@.take(i as int));
            assert(spec_hex_val(v@.take(i + 1)) == spec_hex_val(v@.take(i as int)) * 16 + d);
        }
        if acc > usize::MAX / 16 {
            proof {
                lemma_hex_prefix_too_big(v@, i + 1);
            }
            return None;
        }
        acc = acc * 16;
        if acc > usize::MAX - d {
            proof {
                lemma_hex_prefix_too_big(v@, i + 1);
            }
            return None;
        }
        acc = acc + d;
        i = i + 1;
    }
    proof {
        assert(v@.take(v@.len() as int) =~= v@);
    }
    Some(acc)
}

} // verus!
