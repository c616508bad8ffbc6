//! Primitives of the canonical byte format used to persist a snapshot.
//!
//! Integers are stored big-endian with a fixed width; a string is stored as a
//! 64-bit character count followed by each character as a 32-bit scalar value.
//! For every encoder there is a parser specification, an exact round-trip
//! lemma, and executable emit/read functions proved against the two.

use vstd::prelude::*;
use vstd::string::StrSliceExecFns;

verus! {

/// Relies on `char::from_u32`: returns the character of a Unicode scalar
/// value, `None` exactly on surrogates and values above the Unicode maximum.
pub assume_specification[ char::from_u32 ](x: u32) -> (r: Option<char>)
    ensures
        r is Some <==> is_scalar_value(x),
        r matches Some(c) ==> c as u32 == x,
;

/// Relies on `String::push`: appends the given character to the end.
pub assume_specification[ String::push ](s: &mut String, c: char)
    ensures
        final(s)@ == old(s)@.push(c),
;

/// Whether `x` is a Unicode scalar value, that is, the numeric value of some
/// `char`.
pub open spec fn is_scalar_value(x: u32) -> bool {
    x < 0xD800 || (0xE000 <= x && x <= 0x10FFFF)
}

// ------------------------------------------------------------------
// Encoding specification
// ------------------------------------------------------------------

pub open spec fn enc_u8(x: u8) -> Seq<u8> {
    seq![x]
}

pub open spec fn enc_u32(x: u32) -> Seq<u8> {
    seq![(x >> 24) as u8, (x >> 16) as u8, (x >> 8) as u8, x as u8]
}

pub open spec fn enc_u64(x: u64) -> Seq<u8> {
    enc_u32((x >> 32) as u32) + enc_u32(x as u32)
}

pub open spec fn enc_u128(x: u128) -> Seq<u8> {
    enc_u64((x >> 64) as u64) + enc_u64(x as u64)
}

/// Each character in order, as a 32-bit scalar value.
pub open spec fn enc_chars(s: Seq<char>) -> Seq<u8>
    decreases s.len(),
{
    if s.len() == 0 {
        Seq::empty()
    } else {
        enc_u32(s[0] as u32) + enc_chars(s.drop_first())
    }
}

/// A string: its character count, then its characters.
pub open spec fn enc_str(s: Seq<char>) -> Seq<u8> {
    enc_u64(s.len() as u64) + enc_chars(s)
}

// ------------------------------------------------------------------
// Parsing specification
// ------------------------------------------------------------------

/// The big-endian 32-bit value of four bytes.
pub open spec fn combine32(b0: u8, b1: u8, b2: u8, b3: u8) -> u32 {
    ((b0 as u32) << 24) | ((b1 as u32) << 16) | ((b2 as u32) << 8) | (b3 as u32)
}

pub open spec fn sp_u8(b: Seq<u8>, i: int) -> Option<(u8, int)> {
    if 0 <= i && i + 1 <= b.len() {
        Some((b[i], i + 1))
    } else {
        None
    }
}

pub open spec fn sp_u32(b: Seq<u8>, i: int) -> Option<(u32, int)> {
    if 0 <= i && i + 4 <= b.len() {
        Some((combine32(b[i], b[i + 1], b[i + 2], b[i + 3]), i + 4))
    } else {
        None
    }
}

pub open spec fn sp_u64(b: Seq<u8>, i: int) -> Option<(u64, int)> {
    match sp_u32(b, i) {
        Some((hi, j)) => match sp_u32(b, j) {
            Some((lo, k)) => Some((((hi as u64) << 32) | (lo as u64), k)),
            None => None,
        },
        None => None,
    }
}

pub open spec fn sp_u128(b: Seq<u8>, i: int) -> Option<(u128, int)> {
    match sp_u64(b, i) {
        Some((hi, j)) => match sp_u64(b, j) {
            Some((lo, k)) => Some((((hi as u128) << 64) | (lo as u128), k)),
            None => None,
        },
        None => None,
    }
}

/// Parses exactly `n` characters.
pub open spec fn sp_chars(b: Seq<u8>, i: int, n: int) -> Option<(Seq<char>, int)>
    decreases n,
{
    if n <= 0 {
        Some((Seq::empty(), i))
    } else {
        match sp_u32(b, i) {
            Some((u, j)) => {
                if is_scalar_value(u) {
                    match sp_chars(b, j, n - 1) {
                        Some((cs, k)) => Some((seq![u as char] + cs, k)),
                        None => None,
                    }
                } else {
                    None
                }
            },
            None => None,
        }
    }
}

pub open spec fn sp_str(b: Seq<u8>, i: int) -> Option<(Seq<char>, int)> {
    match sp_u64(b, i) {
        Some((n, j)) => sp_chars(b, j, n as int),
        None => None,
    }
}

// ------------------------------------------------------------------
// Round-trip lemmas: parsing an encoding embedded in a larger buffer
// yields the encoded value and stops right after it.
// ------------------------------------------------------------------

pub proof fn lemma_enc_chars_len(s: Seq<char>)
    ensures
        enc_chars(s).len() == 4 * s.len(),
    decreases s.len(),
{
    if s.len() > 0 {
        lemma_enc_chars_len(s.drop_first());
    }
}

/// Every `char` is a Unicode scalar value, and the cast to `u32` and back is
/// the identity.
pub proof fn lemma_char_scalar(c: char)
    ensures
        is_scalar_value(c as u32),
        (c as u32) as char == c,
{
    vstd::utf8::char_is_scalar(c);
    vstd::utf8::char_u32_cast(c, c as u32);
}

/// Appending one character extends the character encoding at the end.
pub proof fn lemma_enc_chars_push(s: Seq<char>, c: char)
    ensures
        enc_chars(s.push(c)) == enc_chars(s) + enc_u32(c as u32),
    decreases s.len(),
{
    if s.len() == 0 {
        assert(s.push(c).len() == 1);
        assert(s.push(c)[0] == c);
        assert(s.push(c).drop_first() =~= Seq::<char>::empty());
        assert(enc_chars(s.push(c)) == enc_u32(c as u32) + enc_chars(Seq::<char>::empty()));
        assert(enc_chars(s.push(c)) =~= enc_chars(s) + enc_u32(c as u32));
    } else {
        let t = s.drop_first();
        assert(s.push(c)[0] == s[0]);
        assert(s.push(c).drop_first() =~= t.push(c));
        lemma_enc_chars_push(t, c);
        assert(enc_chars(s.push(c)) == enc_u32(s[0] as u32) + enc_chars(t.push(c)));
        assert(enc_chars(s.push(c)) =~= enc_chars(s) + enc_u32(c as u32));
    }
}

/// A buffer region equal to a concatenation splits into the two regions of
/// its parts.
pub proof fn lemma_subrange_split(b: Seq<u8>, i: int, e1: Seq<u8>, e2: Seq<u8>)
    requires
        0 <= i,
        i + e1.len() + e2.len() <= b.len(),
        b.subrange(i, i + e1.len() + e2.len()) == e1 + e2,
    ensures
        b.subrange(i, i + e1.len() as int) == e1,
        b.subrange(i + e1.len() as int, i + e1.len() + e2.len()) == e2,
{
    let n1 = e1.len() as int;
    let n = i + e1.len() + e2.len();
    assert(b.subrange(i, i + n1) =~= e1) by {
        assert(forall|j: int|
            0 <= j < n1 ==> #[trigger] b.subrange(i, i + n1)[j] == b.subrange(i, n)[j]);
    }
    assert(b.subrange(i + n1, n) =~= e2) by {
        assert(forall|j: int|
            0 <= j < e2.len() ==> #[trigger] b.subrange(i + n1, n)[j] == b.subrange(i, n)[j + n1]);
    }
}

pub proof fn lemma_sp_u8(b: Seq<u8>, i: int, x: u8)
    requires
        0 <= i,
        i + 1 <= b.len(),
        b.subrange(i, i + 1) == enc_u8(x),
    ensures
        sp_u8(b, i) == Some((x, i + 1)),
{
    assert(b.subrange(i, i + 1)[0] == b[i]);
}

pub proof fn lemma_sp_u32(b: Seq<u8>, i: int, x: u32)
    requires
        0 <= i,
        i + 4 <= b.len(),
        b.subrange(i, i + 4) == enc_u32(x),
    ensures
        sp_u32(b, i) == Some((x, i + 4)),
{
    assert(b[i] == enc_u32(x)[0]) by {
        assert(b.subrange(i, i + 4)[0] == b[i]);
    }
    assert(b[i + 1] == enc_u32(x)[1]) by {
        assert(b.subrange(i, i + 4)[1] == b[i + 1]);
    }
    assert(b[i + 2] == enc_u32(x)[2]) by {
        assert(b.subrange(i, i + 4)[2] == b[i + 2]);
    }
    assert(b[i + 3] == enc_u32(x)[3]) by {
        assert(b.subrange(i, i + 4)[3] == b[i + 3]);
    }
    assert((((x >> 24) as u8 as u32) << 24) | (((x >> 16) as u8 as u32) << 16) | (((x >> 8) as u8
        as u32) << 8) | (x as u8 as u32) == x) by (bit_vector);
}

pub proof fn lemma_sp_u64(b: Seq<u8>, i: int, x: u64)
    requires
        0 <= i,
        i + 8 <= b.len(),
        b.subrange(i, i + 8) == enc_u64(x),
    ensures
        sp_u64(b, i) == Some((x, i + 8)),
{
    let hi = (x >> 32) as u32;
    let lo = x as u32;
    assert(b.subrange(i, i + 4) =~= enc_u32(hi)) by {
        assert(forall|j: int|
            0 <= j < 4 ==> #[trigger] b.subrange(i, i + 4)[j] == b.subrange(i, i + 8)[j]);
    }
    assert(b.subrange(i + 4, i + 8) =~= enc_u32(lo)) by {
        assert(forall|j: int|
            0 <= j < 4 ==> #[trigger] b.subrange(i + 4, i + 8)[j] == b.subrange(i, i + 8)[j + 4]);
    }
    lemma_sp_u32(b, i, hi);
    lemma_sp_u32(b, i + 4, lo);
    assert((((x >> 32) as u32 as u64) << 32) | (x as u32 as u64) == x) by (bit_vector);
}

pub proof fn lemma_sp_u128(b: Seq<u8>, i: int, x: u128)
    requires
        0 <= i,
        i + 16 <= b.len(),
        b.subrange(i, i + 16) == enc_u128(x),
    ensures
        sp_u128(b, i) == Some((x, i + 16)),
{
    let hi = (x >> 64) as u64;
    let lo = x as u64;
    assert(b.subrange(i, i + 8) =~= enc_u64(hi)) by {
        assert(forall|j: int|
            0 <= j < 8 ==> #[trigger] b.subrange(i, i + 8)[j] == b.subrange(i, i + 16)[j]);
    }
    assert(b.subrange(i + 8, i + 16) =~= enc_u64(lo)) by {
        assert(forall|j: int|
            0 <= j < 8 ==> #[trigger] b.subrange(i + 8, i + 16)[j] == b.subrange(i, i + 16)[j + 8]);
    }
    lemma_sp_u64(b, i, hi);
    lemma_sp_u64(b, i + 8, lo);
    assert((((x >> 64) as u64 as u128) << 64) | (x as u64 as u128) == x) by (bit_vector);
}

pub proof fn lemma_sp_chars(b: Seq<u8>, i: int, s: Seq<char>)
    requires
        0 <= i,
        i + enc_chars(s).len() <= b.len(),
        b.subrange(i, i + enc_chars(s).len() as int) == enc_chars(s),
    ensures
        sp_chars(b, i, s.len() as int) == Some((s, i + enc_chars(s).len())),
    decreases s.len(),
{
    if s.len() == 0 {
    } else {
        let c = s[0];
        let rest = s.drop_first();
        lemma_enc_chars_len(s);
        lemma_enc_chars_len(rest);
        let tot = enc_chars(s).len() as int;
        assert(b.subrange(i, i + 4) =~= enc_u32(c as u32)) by {
            assert(forall|j: int|
                0 <= j < 4 ==> #[trigger] b.subrange(i, i + 4)[j] == b.subrange(i, i + tot)[j]);
        }
        lemma_sp_u32(b, i, c as u32);
        lemma_char_scalar(c);
        assert(b.subrange(i + 4, i + tot) =~= enc_chars(rest)) by {
            assert(forall|j: int|
                0 <= j < tot - 4 ==> #[trigger] b.subrange(i + 4, i + tot)[j] == b.subrange(i, i + tot)[j
                    + 4]);
        }
        lemma_sp_chars(b, i + 4, rest);
        assert(seq![c] + rest =~= s);
    }
}

pub proof fn lemma_sp_str(b: Seq<u8>, i: int, s: Seq<char>)
    requires
        0 <= i,
        s.len() <= u64::MAX,
        i + enc_str(s).len() <= b.len(),
        b.subrange(i, i + enc_str(s).len() as int) == enc_str(s),
    ensures
        sp_str(b, i) == Some((s, i + enc_str(s).len())),
{
    lemma_enc_chars_len(s);
    let tot = enc_str(s).len() as int;
    assert(b.subrange(i, i + 8) =~= enc_u64(s.len() as u64)) by {
        assert(forall|j: int|
            0 <= j < 8 ==> #[trigger] b.subrange(i, i + 8)[j] == b.subrange(i, i + tot)[j]);
    }
    lemma_sp_u64(b, i, s.len() as u64);
    assert(b.subrange(i + 8, i + tot) =~= enc_chars(s)) by {
        assert(forall|j: int|
            0 <= j < tot - 8 ==> #[trigger] b.subrange(i + 8, i + tot)[j] == b.subrange(i, i + tot)[j + 8]);
    }
    lemma_sp_chars(b, i + 8, s);
}

// ------------------------------------------------------------------
// Executable encoders
// ------------------------------------------------------------------

pub fn emit_u8(out: &mut Vec<u8>, x: u8)
    ensures
        final(out)@ == old(out)@ + enc_u8(x),
{
    out.push(x);
    proof {
        assert(out@ =~= old(out)@ + enc_u8(x));
    }
}

pub fn emit_u32(out: &mut Vec<u8>, x: u32)
    ensures
        final(out)@ == old(out)@ + enc_u32(x),
{
    out.push((x >> 24) as u8);
    out.push((x >> 16) as u8);
    out.push((x >> 8) as u8);
    out.push(x as u8);
    proof {
        assert(out@ =~= old(out)@ + enc_u32(x));
    }
}

pub fn emit_u64(out: &mut Vec<u8>, x: u64)
    ensures
        final(out)@ == old(out)@ + enc_u64(x),
{
    emit_u32(out, (x >> 32) as u32);
    emit_u32(out, x as u32);
    proof {
        assert(out@ =~= old(out)@ + enc_u64(x));
    }
}

pub fn emit_u128(out: &mut Vec<u8>, x: u128)
    ensures
        final(out)@ == old(out)@ + enc_u128(x),
{
    emit_u64(out, (x >> 64) as u64);
    emit_u64(out, x as u64);
    proof {
        assert(out@ =~= old(out)@ + enc_u128(x));
    }
}

pub fn emit_str(out: &mut Vec<u8>, s: &String)
    ensures
        final(out)@ == old(out)@ + enc_str(s@),
        s@.len() <= u64::MAX,
{
    let n = s.as_str().unicode_len();
    emit_u64(out, n as u64);
    let mut idx: usize = 0;
    while idx < n
        invariant
            idx <= n,
            n == s@.len(),
            out@ == old(out)@ + enc_u64(n as u64) + enc_chars(s@.take(idx as int)),
        decreases n - idx,
    {
        let c = s.as_str().get_char(idx);
        emit_u32(out, c as u32);
        proof {
            lemma_enc_chars_push(s@.take(idx as int), c);
            assert(s@.take(idx as int).push(s@[idx as int]) =~= s@.take(idx as int + 1));
            assert(out@ =~= old(out)@ + enc_u64(n as u64) + enc_chars(s@.take(idx as int + 1)));
        }
        idx = idx + 1;
    }
    proof {
        assert(s@.take(n as int) =~= s@);
        assert(out@ =~= old(out)@ + enc_str(s@));
    }
}

// ------------------------------------------------------------------
// Executable parsers
// ------------------------------------------------------------------

/// Whether the executable parse result `r` is the specified outcome `s`.
pub open spec fn matches_sp<T>(r: Option<(T, usize)>, s: Option<(T, int)>) -> bool {
    match r {
        Some((v, p)) => s matches Some((w, q)) && v == w && p as int == q,
        None => s is None,
    }
}

pub fn read_u8(b: &Vec<u8>, pos: usize) -> (r: Option<(u8, usize)>)
    ensures
        matches_sp(r, sp_u8(b@, pos as int)),
{
    if pos < b.len() {
        Some((b[pos], pos + 1))
    } else {
        None
    }
}

pub fn read_u32(b: &Vec<u8>, pos: usize) -> (r: Option<(u32, usize)>)
    ensures
        matches_sp(r, sp_u32(b@, pos as int)),
{
    if pos < b.len() && b.len() - pos >= 4 {
        let x = ((b[pos] as u32) << 24) | ((b[pos + 1] as u32) << 16) | ((b[pos + 2] as u32) << 8)
            | (b[pos + 3] as u32);
        Some((x, pos + 4))
    } else {
        None
    }
}

pub fn read_u64(b: &Vec<u8>, pos: usize) -> (r: Option<(u64, usize)>)
    ensures
        matches_sp(r, sp_u64(b@, pos as int)),
{
    match read_u32(b, pos) {
        Some((hi, j)) => match read_u32(b, j) {
            Some((lo, k)) => Some((((hi as u64) << 32) | (lo as u64), k)),
            None => None,
        },
        None => None,
    }
}

pub fn read_u128(b: &Vec<u8>, pos: usize) -> (r: Option<(u128, usize)>)
    ensures
        matches_sp(r, sp_u128(b@, pos as int)),
{
    match read_u64(b, pos) {
        Some((hi, j)) => match read_u64(b, j) {
            Some((lo, k)) => Some((((hi as u128) << 64) | (lo as u128), k)),
            None => None,
        },
        None => None,
    }
}

pub fn read_u32_at(b: &[u8], pos: usize) -> (r: Option<(u32, usize)>)
    ensures
        matches_sp(r, sp_u32(b@, pos as int)),
{
    if pos < b.len() && b.len() - pos >= 4 {
        let x = ((b[pos] as u32) << 24) | ((b[pos + 1] as u32) << 16) | ((b[pos + 2] as u32) << 8)
            | (b[pos + 3] as u32);
        Some((x, pos + 4))
    } else {
        None
    }
}

pub fn read_u64_at(b: &[u8], pos: usize) -> (r: Option<(u64, usize)>)
    ensures
        matches_sp(r, sp_u64(b@, pos as int)),
{
    match read_u32_at(b, pos) {
        Some((hi, j)) => match read_u32_at(b, j) {
            Some((lo, k)) => Some((((hi as u64) << 32) | (lo as u64), k)),
            None => None,
        },
        None => None,
    }
}

pub fn read_str(b: &Vec<u8>, pos: usize) -> (r: Option<(String, usize)>)
    ensures
        (match r {
            Some((v, p)) => sp_str(b@, pos as int) matches Some((w, q)) && v@ == w && p as int
                == q,
            None => sp_str(b@, pos as int) is None,
        }),
{
    let (n, start) = match read_u64(b, pos) {
        Some(x) => x,
        None => {
            return None;
        },
    };
    let mut acc = String::new();
    let mut k = start;
    let mut cnt: u64 = 0;
    loop
        invariant
            cnt <= n,
            sp_u64(b@, pos as int) == Some((n, start as int)),
            (match sp_chars(b@, k as int, (n - cnt) as int) {
                Some((cs, e)) => sp_chars(b@, start as int, n as int) == Some((acc@ + cs, e)),
                None => sp_chars(b@, start as int, n as int) is None,
            }),
        decreases n - cnt,
    {
        if cnt == n {
            proof {
                assert(acc@ + Seq::<char>::empty() =~= acc@);
            }
            return Some((acc, k));
        }
        let (u, k2) = match read_u32(b, k) {
            Some(x) => x,
            None => {
                return None;
            },
        };
        let c = match char::from_u32(u) {
            Some(c) => c,
            None => {
                return None;
            },
        };
        let ghost prev = acc@;
        acc.push(c);
        proof {
            let m = (n - cnt) as int;
            lemma_char_scalar(c);
            assert(u as char == c);
            let tail = sp_chars(b@, k2 as int, m - 1);
            assert(sp_chars(b@, k as int, m) == (match tail {
                Some((cs2, e)) => Some((seq![c] + cs2, e)),
                None => None::<(Seq<char>, int)>,
            }));
            if tail is Some {
                let cs2 = tail.unwrap().0;
                assert(prev + (seq![c] + cs2) =~= prev.push(c) + cs2);
            }
        }
        k = k2;
        cnt = cnt + 1;
    }
}

} // verus!
