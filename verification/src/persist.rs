use vstd::prelude::*;

use crate::cache::{distinct_keys, CacheEntry, ContentCache};
use crate::textutil::{chars_to_string, str_chars};

verus! {

use vstd::utf8::is_scalar;

// The cache persists as one self-contained binary blob: an entry count,
// then each entry as its key, its content as a character-count followed by
// one 32-bit code per character, and its alignment tagged by presence and
// sign.  All numbers are little-endian.

/// What one stored entry denotes: key, content text, alignment.
pub open spec fn entry_data(e: (u64, CacheEntry)) -> (u64, Seq<char>, Option<i64>) {
    (e.0, e.1.content@, e.1.align)
}

/// The data an entry list denotes.
pub open spec fn entries_data(s: Seq<(u64, CacheEntry)>) -> Seq<(u64, Seq<char>, Option<i64>)> {
    s.map(|i: int, e: (u64, CacheEntry)| entry_data(e))
}

/// No two data entries share a key.
pub open spec fn distinct_data_keys(es: Seq<(u64, Seq<char>, Option<i64>)>) -> bool {
    forall|i: int, j: int| 0 <= i < j < es.len() ==> es[i].0 != es[j].0
}

pub open spec fn encode_u64(n: u64) -> Seq<u8> {
    seq![
        n as u8,
        (n >> 8u64) as u8,
        (n >> 16u64) as u8,
        (n >> 24u64) as u8,
        (n >> 32u64) as u8,
        (n >> 40u64) as u8,
        (n >> 48u64) as u8,
        (n >> 56u64) as u8,
    ]
}

pub open spec fn encode_u32(n: u32) -> Seq<u8> {
    seq![n as u8, (n >> 8u32) as u8, (n >> 16u32) as u8, (n >> 24u32) as u8]
}

/// The magnitude of a negative alignment, which always fits in a u64.
pub open spec fn neg_mag(v: i64) -> u64 {
    (-(v as int)) as u64
}

pub open spec fn encode_align(a: Option<i64>) -> Seq<u8> {
    match a {
        None => seq![0u8],
        Some(v) => if v >= 0 {
            seq![1u8] + encode_u64(v as u64)
        } else {
            seq![2u8] + encode_u64(neg_mag(v))
        },
    }
}

pub open spec fn encode_chars(s: Seq<char>) -> Seq<u8>
    decreases s.len(),
{
    if s.len() == 0 {
        Seq::empty()
    } else {
        encode_u32(s[0] as u32) + encode_chars(s.skip(1))
    }
}

pub open spec fn encode_entry(e: (u64, Seq<char>, Option<i64>)) -> Seq<u8> {
    encode_u64(e.0) + encode_u64(e.1.len() as u64) + encode_chars(e.1) + encode_align(e.2)
}

pub open spec fn encode_entries(es: Seq<(u64, Seq<char>, Option<i64>)>) -> Seq<u8>
    decreases es.len(),
{
    if es.len() == 0 {
        Seq::empty()
    } else {
        encode_entry(es[0]) + encode_entries(es.skip(1))
    }
}

/// The whole persisted blob of an entry list.
pub open spec fn encode_cache(es: Seq<(u64, Seq<char>, Option<i64>)>) -> Seq<u8> {
    encode_u64(es.len() as u64) + encode_entries(es)
}

pub open spec fn dec_u64_at(b: Seq<u8>, p: int) -> u64
    recommends
        0 <= p,
        p + 8 <= b.len(),
{
    (b[p] as u64) | ((b[p + 1] as u64) << 8u64) | ((b[p + 2] as u64) << 16u64) | ((b[p + 3] as u64)
        << 24u64) | ((b[p + 4] as u64) << 32u64) | ((b[p + 5] as u64) << 40u64) | ((b[p + 6] as u64)
        << 48u64) | ((b[p + 7] as u64) << 56u64)
}

pub open spec fn dec_u32_at(b: Seq<u8>, p: int) -> u32
    recommends
        0 <= p,
        p + 4 <= b.len(),
{
    (b[p] as u32) | ((b[p + 1] as u32) << 8u32) | ((b[p + 2] as u32) << 16u32) | ((b[p + 3] as u32)
        << 24u32)
}

pub open spec fn dec_chars_at(b: Seq<u8>, p: int, n: nat) -> Option<(Seq<char>, int)>
    decreases n,
{
    if n == 0 {
        Some((Seq::empty(), p))
    } else if 0 <= p && p + 4 <= b.len() {
        let code = dec_u32_at(b, p);
        if is_scalar(code) {
            match dec_chars_at(b, p + 4, (n - 1) as nat) {
                Some(rest) => Some((seq![code as char] + rest.0, rest.1)),
                None => None,
            }
        } else {
            None
        }
    } else {
        None
    }
}

pub open spec fn dec_align_at(b: Seq<u8>, p: int) -> Option<(Option<i64>, int)> {
    if 0 <= p < b.len() {
        if b[p] == 0 {
            Some((None, p + 1))
        } else if b[p] == 1 && p + 9 <= b.len() {
            let m = dec_u64_at(b, p + 1);
            if m <= 0x7fffffffffffffffu64 {
                Some((Some(m as i64), p + 9))
            } else {
                None
            }
        } else if b[p] == 2 && p + 9 <= b.len() {
            let m = dec_u64_at(b, p + 1);
            if 1 <= m <= 0x8000000000000000u64 {
                Some(
                    (
                        Some(
                            if m == 0x8000000000000000u64 {
                                i64::MIN
                            } else {
                                (-(m as int)) as i64
                            },
                        ),
                        p + 9,
                    ),
                )
            } else {
                None
            }
        } else {
            None
        }
    } else {
        None
    }
}

pub open spec fn dec_entry_at(b: Seq<u8>, p: int) -> Option<((u64, Seq<char>, Option<i64>), int)> {
    if 0 <= p && p + 16 <= b.len() {
        let key = dec_u64_at(b, p);
        let n = dec_u64_at(b, p + 8);
        match dec_chars_at(b, p + 16, n as nat) {
            Some(cs) => match dec_align_at(b, cs.1) {
                Some(al) => Some(((key, cs.0, al.0), al.1)),
                None => None,
            },
            None => None,
        }
    } else {
        None
    }
}

pub open spec fn dec_entries_at(b: Seq<u8>, p: int, n: nat) -> Option<
    (Seq<(u64, Seq<char>, Option<i64>)>, int),
>
    decreases n,
{
    if n == 0 {
        Some((Seq::empty(), p))
    } else {
        match dec_entry_at(b, p) {
            Some(e) => match dec_entries_at(b, e.1, (n - 1) as nat) {
                Some(rest) => Some((seq![e.0] + rest.0, rest.1)),
                None => None,
            },
            None => None,
        }
    }
}

/// What a persisted blob denotes: the entry list, provided every byte is
/// accounted for.
pub open spec fn decode_cache(b: Seq<u8>) -> Option<Seq<(u64, Seq<char>, Option<i64>)>> {
    if b.len() < 8 {
        None
    } else {
        let count = dec_u64_at(b, 0);
        match dec_entries_at(b, 8, count as nat) {
            Some(es) => if es.1 == b.len() {
                Some(es.0)
            } else {
                None
            },
            None => None,
        }
    }
}

proof fn lemma_dec_u64(b: Seq<u8>, p: int, n: u64)
    requires
        0 <= p,
        p + 8 <= b.len(),
        b.subrange(p, p + 8) == encode_u64(n),
    ensures
        dec_u64_at(b, p) == n,
{
    let sub = b.subrange(p, p + 8);
    assert(b[p] == sub[0] && b[p + 1] == sub[1] && b[p + 2] == sub[2] && b[p + 3] == sub[3] && b[p
        + 4] == sub[4] && b[p + 5] == sub[5] && b[p + 6] == sub[6] && b[p + 7] == sub[7]);
    assert(((n as u8) as u64) | ((((n >> 8u64) as u8) as u64) << 8u64) | ((((n >> 16u64) as u8)
        as u64) << 16u64) | ((((n >> 24u64) as u8) as u64) << 24u64) | ((((n >> 32u64) as u8)
        as u64) << 32u64) | ((((n >> 40u64) as u8) as u64) << 40u64) | ((((n >> 48u64) as u8)
        as u64) << 48u64) | ((((n >> 56u64) as u8) as u64) << 56u64) == n) by (bit_vector);
}

proof fn lemma_dec_u32(b: Seq<u8>, p: int, n: u32)
    requires
        0 <= p,
        p + 4 <= b.len(),
        b.subrange(p, p + 4) == encode_u32(n),
    ensures
        dec_u32_at(b, p) == n,
{
    let sub = b.subrange(p, p + 4);
    assert(b[p] == sub[0] && b[p + 1] == sub[1] && b[p + 2] == sub[2] && b[p + 3] == sub[3]);
    assert(((n as u8) as u32) | ((((n >> 8u32) as u8) as u32) << 8u32) | ((((n >> 16u32) as u8)
        as u32) << 16u32) | ((((n >> 24u32) as u8) as u32) << 24u32) == n) by (bit_vector);
}

proof fn lemma_dec_chars(b: Seq<u8>, p: int, s: Seq<char>)
    requires
        0 <= p,
        p + 4 * s.len() <= b.len(),
        b.subrange(p, p + 4 * s.len()) == encode_chars(s),
    ensures
        dec_chars_at(b, p, s.len()) == Some((s, p + 4 * s.len())),
    decreases s.len(),
{
    if s.len() == 0 {
    } else {
        let code = s[0] as u32;
        vstd::utf8::char_is_scalar(s[0]);
        vstd::utf8::char_u32_cast(s[0], code);
        lemma_encode_chars_len(s.skip(1));
        assert(b.subrange(p, p + 4) =~= encode_chars(s).subrange(0, 4));
        assert(encode_chars(s).subrange(0, 4) =~= encode_u32(code));
        lemma_dec_u32(b, p, code);
        assert(b.subrange(p + 4, p + 4 + 4 * s.skip(1).len()) =~= encode_chars(s).subrange(
            4,
            4 + 4 * s.skip(1).len() as int,
        ));
        assert(encode_chars(s).subrange(4, 4 + 4 * s.skip(1).len() as int) =~= encode_chars(
            s.skip(1),
        ));
        lemma_dec_chars(b, p + 4, s.skip(1));
        assert((code as char) == s[0]);
        assert(seq![s[0]] + s.skip(1) =~= s);
    }
}

/// Every character encodes to exactly four bytes.
proof fn lemma_encode_chars_len(s: Seq<char>)
    ensures
        encode_chars(s).len() == 4 * s.len(),
    decreases s.len(),
{
    if s.len() > 0 {
        lemma_encode_chars_len(s.skip(1));
    }
}

pub open spec fn align_len(a: Option<i64>) -> int {
    match a {
        None => 1,
        Some(_) => 9,
    }
}

proof fn lemma_dec_align(b: Seq<u8>, p: int, a: Option<i64>)
    requires
        0 <= p,
        p + align_len(a) <= b.len(),
        b.subrange(p, p + align_len(a)) == encode_align(a),
    ensures
        dec_align_at(b, p) == Some((a, p + align_len(a))),
{
    let sub = b.subrange(p, p + align_len(a));
    assert(b[p] == sub[0]);
    match a {
        None => {},
        Some(v) => {
            if v >= 0 {
                assert(b.subrange(p + 1, p + 9) =~= sub.subrange(1, 9));
                assert(sub.subrange(1, 9) =~= encode_u64(v as u64));
                lemma_dec_u64(b, p + 1, v as u64);
            } else {
                assert(b.subrange(p + 1, p + 9) =~= sub.subrange(1, 9));
                assert(sub.subrange(1, 9) =~= encode_u64(neg_mag(v)));
                lemma_dec_u64(b, p + 1, neg_mag(v));
                assert(1 <= neg_mag(v) <= 0x8000000000000000u64);
                if neg_mag(v) == 0x8000000000000000u64 {
                    assert(v == i64::MIN);
                } else {
                    assert(-((neg_mag(v)) as i64) == v);
                }
            }
        },
    }
}

pub open spec fn entry_len(e: (u64, Seq<char>, Option<i64>)) -> int {
    16 + 4 * e.1.len() + align_len(e.2)
}

proof fn lemma_encode_entry_len(e: (u64, Seq<char>, Option<i64>))
    ensures
        encode_entry(e).len() == entry_len(e),
{
    lemma_encode_chars_len(e.1);
}

proof fn lemma_dec_entry(b: Seq<u8>, p: int, e: (u64, Seq<char>, Option<i64>))
    requires
        0 <= p,
        p + entry_len(e) <= b.len(),
        b.subrange(p, p + entry_len(e)) == encode_entry(e),
        e.1.len() < 0x10000000000000000,
    ensures
        dec_entry_at(b, p) == Some((e, p + entry_len(e))),
{
    lemma_encode_chars_len(e.1);
    let enc = encode_entry(e);
    assert(b.subrange(p, p + 8) =~= enc.subrange(0, 8));
    assert(enc.subrange(0, 8) =~= encode_u64(e.0));
    lemma_dec_u64(b, p, e.0);
    assert(b.subrange(p + 8, p + 16) =~= enc.subrange(8, 16));
    assert(enc.subrange(8, 16) =~= encode_u64(e.1.len() as u64));
    lemma_dec_u64(b, p + 8, e.1.len() as u64);
    assert(b.subrange(p + 16, p + 16 + 4 * e.1.len()) =~= enc.subrange(
        16,
        16 + 4 * e.1.len() as int,
    ));
    assert(enc.subrange(16, 16 + 4 * e.1.len() as int) =~= encode_chars(e.1));
    lemma_dec_chars(b, p + 16, e.1);
    let pa = p + 16 + 4 * e.1.len();
    assert(b.subrange(pa, pa + align_len(e.2)) =~= enc.subrange(
        16 + 4 * e.1.len() as int,
        16 + 4 * e.1.len() + align_len(e.2),
    ));
    assert(enc.subrange(16 + 4 * e.1.len() as int, 16 + 4 * e.1.len() + align_len(e.2))
        =~= encode_align(e.2));
    lemma_dec_align(b, pa, e.2);
}

proof fn lemma_encode_entries_len(es: Seq<(u64, Seq<char>, Option<i64>)>)
    ensures
        encode_entries(es).len() >= 0,
        es.len() > 0 ==> encode_entries(es).len() == entry_len(es[0]) + encode_entries(
            es.skip(1),
        ).len(),
    decreases es.len(),
{
    if es.len() > 0 {
        lemma_encode_entry_len(es[0]);
    }
}

proof fn lemma_dec_entries(b: Seq<u8>, p: int, es: Seq<(u64, Seq<char>, Option<i64>)>)
    requires
        0 <= p,
        p + encode_entries(es).len() <= b.len(),
        b.subrange(p, p + encode_entries(es).len()) == encode_entries(es),
        forall|i: int| 0 <= i < es.len() ==> (#[trigger] es[i]).1.len() < 0x10000000000000000,
    ensures
        dec_entries_at(b, p, es.len()) == Some((es, p + encode_entries(es).len())),
    decreases es.len(),
{
    if es.len() == 0 {
    } else {
        let e = es[0];
        lemma_encode_entry_len(e);
        lemma_encode_entries_len(es);
        let el = entry_len(e);
        let total = encode_entries(es).len() as int;
        assert(b.subrange(p, p + el) =~= encode_entries(es).subrange(0, el));
        assert(encode_entries(es).subrange(0, el) =~= encode_entry(e));
        lemma_dec_entry(b, p, e);
        assert(b.subrange(p + el, p + total) =~= encode_entries(es).subrange(el, total));
        assert(encode_entries(es).subrange(el, total) =~= encode_entries(es.skip(1)));
        lemma_dec_entries(b, p + el, es.skip(1));
        assert(seq![e] + es.skip(1) =~= es);
    }
}

/// Law: the persisted form of a cache decodes to exactly the entry list it
/// was written from — every key, every content text, every alignment,
/// including absent ones.  Reloading a persisted cache therefore reproduces
/// an equivalent entry set.
pub proof fn lemma_persist_round_trip(es: Seq<(u64, Seq<char>, Option<i64>)>)
    requires
        es.len() < 0x10000000000000000,
        forall|i: int| 0 <= i < es.len() ==> (#[trigger] es[i]).1.len() < 0x10000000000000000,
    ensures
        decode_cache(encode_cache(es)) == Some(es),
{
    let b = encode_cache(es);
    assert(b.subrange(0, 8) =~= encode_u64(es.len() as u64));
    lemma_dec_u64(b, 0, es.len() as u64);
    assert(b.subrange(8, 8 + encode_entries(es).len() as int) =~= encode_entries(es));
    lemma_dec_entries(b, 8, es);
}


fn push_u64(out: &mut Vec<u8>, n: u64)
    ensures
        final(out)@ == old(out)@ + encode_u64(n),
{
    out.push(#[verifier::truncate] (n as u8));
    out.push(#[verifier::truncate] ((n >> 8u64) as u8));
    out.push(#[verifier::truncate] ((n >> 16u64) as u8));
    out.push(#[verifier::truncate] ((n >> 24u64) as u8));
    out.push(#[verifier::truncate] ((n >> 32u64) as u8));
    out.push(#[verifier::truncate] ((n >> 40u64) as u8));
    out.push(#[verifier::truncate] ((n >> 48u64) as u8));
    out.push(#[verifier::truncate] ((n >> 56u64) as u8));
    assert(out@ =~= old(out)@ + encode_u64(n));
}

fn push_u32(out: &mut Vec<u8>, n: u32)
    ensures
        final(out)@ == old(out)@ + encode_u32(n),
{
    out.push(#[verifier::truncate] (n as u8));
    out.push(#[verifier::truncate] ((n >> 8u32) as u8));
    out.push(#[verifier::truncate] ((n >> 16u32) as u8));
    out.push(#[verifier::truncate] ((n >> 24u32) as u8));
    assert(out@ =~= old(out)@ + encode_u32(n));
}

fn push_align(out: &mut Vec<u8>, a: &Option<i64>)
    ensures
        final(out)@ == old(out)@ + encode_align(*a),
{
    match a {
        None => {
            out.push(0u8);
            assert(out@ =~= old(out)@ + encode_align(None));
        },
        Some(v) => {
            if *v >= 0 {
                out.push(1u8);
                push_u64(out, *v as u64);
            } else {
                out.push(2u8);
                let mag: u64 = ((-(*v + 1)) as u64) + 1;
                proof {
                    assert(mag == neg_mag(*v));
                }
                push_u64(out, mag);
            }
            assert(out@ =~= old(out)@ + encode_align(*a));
        },
    }
}

proof fn lemma_encode_chars_push(s: Seq<char>, c: char)
    ensures
        encode_chars(s.push(c)) == encode_chars(s) + encode_u32(c as u32),
    decreases s.len(),
{
    if s.len() == 0 {
        assert(s.push(c)[0] == c);
        assert(s.push(c).skip(1) =~= Seq::<char>::empty());
        assert(encode_chars(s.push(c).skip(1)) =~= Seq::<u8>::empty());
        assert(encode_chars(s) =~= Seq::<u8>::empty());
        assert(encode_chars(s.push(c)) =~= encode_chars(s) + encode_u32(c as u32));
    } else {
        assert(s.push(c).skip(1) =~= s.skip(1).push(c));
        lemma_encode_chars_push(s.skip(1), c);
        assert(encode_chars(s.push(c).skip(1)) == encode_chars(s.skip(1)) + encode_u32(c as u32));
        assert(s.push(c)[0] == s[0]);
        assert(encode_chars(s.push(c)) =~= encode_chars(s) + encode_u32(c as u32));
    }
}

proof fn lemma_encode_entries_push(
    es: Seq<(u64, Seq<char>, Option<i64>)>,
    e: (u64, Seq<char>, Option<i64>),
)
    ensures
        encode_entries(es.push(e)) == encode_entries(es) + encode_entry(e),
    decreases es.len(),
{
    if es.len() == 0 {
        assert(es.push(e)[0] == e);
        assert(es.push(e).skip(1) =~= Seq::<(u64, Seq<char>, Option<i64>)>::empty());
        assert(encode_entries(es.push(e).skip(1)) =~= Seq::<u8>::empty());
        assert(encode_entries(es) =~= Seq::<u8>::empty());
        assert(encode_entries(es.push(e)) =~= encode_entries(es) + encode_entry(e));
    } else {
        assert(es.push(e).skip(1) =~= es.skip(1).push(e));
        lemma_encode_entries_push(es.skip(1), e);
        assert(encode_entries(es.push(e).skip(1)) == encode_entries(es.skip(1)) + encode_entry(e));
        assert(es.push(e)[0] == es[0]);
        assert(encode_entries(es.push(e)) =~= encode_entries(es) + encode_entry(e));
    }
}

fn push_chars(out: &mut Vec<u8>, s: &Vec<char>)
    ensures
        final(out)@ == old(out)@ + encode_chars(s@),
{
    let n = s.len();
    let mut i: usize = 0;
    while i < n
        invariant
            i <= n,
            n == s@.len(),
            out@ == old(out)@ + encode_chars(s@.take(i as int)),
        decreases n - i,
    {
        push_u32(out, s[i] as u32);
        proof {
            lemma_encode_chars_push(s@.take(i as int), s@[i as int]);
            assert(s@.take(i as int + 1) =~= s@.take(i as int).push(s@[i as int]));
        }
        i += 1;
    }
    proof {
        assert(s@.take(n as int) =~= s@);
    }
}

fn push_entry(out: &mut Vec<u8>, key: u64, e: &CacheEntry)
    ensures
        final(out)@ == old(out)@ + encode_entry((key, e.content@, e.align)),
{
    push_u64(out, key);
    let cs = str_chars(e.content.as_str());
    push_u64(out, cs.len() as u64);
    push_chars(out, &cs);
    push_align(out, &e.align);
    assert(out@ =~= old(out)@ + encode_entry((key, e.content@, e.align)));
}

/// Serializes the whole entry set into one self-contained blob, replacing
/// any previous persisted form in full.
pub fn persist_bytes(cache: &ContentCache) -> (r: Vec<u8>)
    ensures
        r@ == encode_cache(entries_data(cache.entries_seq())),
{
    let entries = cache.entry_list();
    let n = entries.len();
    let mut out: Vec<u8> = Vec::new();
    push_u64(&mut out, n as u64);
    proof {
        assert(entries_data(entries@).len() == entries@.len());
        assert(entries_data(entries@.take(0)) =~= Seq::<(u64, Seq<char>, Option<i64>)>::empty());
    }
    let mut i: usize = 0;
    while i < n
        invariant
            i <= n,
            n == entries@.len(),
            entries@ == cache.entries_seq(),
            out@ == encode_u64(n as u64) + encode_entries(entries_data(entries@.take(i as int))),
        decreases n - i,
    {
        push_entry(&mut out, entries[i].0, &entries[i].1);
        proof {
            let pre = entries_data(entries@.take(i as int));
            let e = entry_data(entries@[i as int]);
            lemma_encode_entries_push(pre, e);
            assert(entries_data(entries@.take(i as int + 1)) =~= pre.push(e));
        }
        i += 1;
    }
    proof {
        assert(entries@.take(n as int) =~= entries@);
        assert(out@ =~= encode_cache(entries_data(cache.entries_seq())));
    }
    out
}

/// Why a persisted blob could not be loaded back.
#[derive(Debug, Clone, PartialEq, Eq)]
pub enum CacheLoadError {
    /// The blob is not a well-formed persisted cache.
    Malformed,
}

/// Relies on char::from_u32: defined exactly for Unicode scalar values,
/// returning the character with that code.
#[verifier::external_body]
fn char_from_code(code: u32) -> (r: Option<char>)
    ensures
        r is Some <==> is_scalar(code),
        r is Some ==> r->0 == (code as char),
{
    char::from_u32(code)
}

fn read_u64(b: &Vec<u8>, p: usize) -> (r: u64)
    requires
        p + 8 <= b@.len(),
    ensures
        r == dec_u64_at(b@, p as int),
{
    // a vector's length fits the machine word; the call brings that bound in
    let _n = b.len();
    (b[p] as u64) | ((b[p + 1] as u64) << 8u64) | ((b[p + 2] as u64) << 16u64) | ((b[p + 3] as u64)
        << 24u64) | ((b[p + 4] as u64) << 32u64) | ((b[p + 5] as u64) << 40u64) | ((b[p + 6] as u64)
        << 48u64) | ((b[p + 7] as u64) << 56u64)
}

fn read_u32(b: &Vec<u8>, p: usize) -> (r: u32)
    requires
        p + 4 <= b@.len(),
    ensures
        r == dec_u32_at(b@, p as int),
{
    // a vector's length fits the machine word; the call brings that bound in
    let _n = b.len();
    (b[p] as u32) | ((b[p + 1] as u32) << 8u32) | ((b[p + 2] as u32) << 16u32) | ((b[p + 3] as u32)
        << 24u32)
}

fn read_entry(b: &Vec<u8>, p: usize) -> (r: Option<((u64, CacheEntry), usize)>)
    requires
        p <= b@.len(),
    ensures
        match r {
            Some(ep) => {
                &&& dec_entry_at(b@, p as int) == Some((entry_data(ep.0), ep.1 as int))
                &&& p < ep.1 <= b@.len()
            },
            None => dec_entry_at(b@, p as int) is None,
        },
{
    let n = b.len();
    if n - p < 16 {
        return None;
    }
    let key = read_u64(b, p);
    let cnt = read_u64(b, p + 8);
    let mut cs: Vec<char> = Vec::new();
    let mut q: usize = p + 16;
    let mut j: u64 = 0;
    while j < cnt
        invariant
            p + 16 <= q <= n,
            n == b@.len(),
            j <= cnt,
            key == dec_u64_at(b@, p as int),
            cnt == dec_u64_at(b@, p as int + 8),
            match dec_chars_at(b@, q as int, (cnt - j) as nat) {
                Some(rest) => dec_chars_at(b@, p as int + 16, cnt as nat) == Some(
                    (cs@ + rest.0, rest.1),
                ),
                None => dec_chars_at(b@, p as int + 16, cnt as nat) is None,
            },
        decreases cnt - j,
    {
        if n - q < 4 {
            return None;
        }
        let code = read_u32(b, q);
        match char_from_code(code) {
            Some(ch) => {
                proof {
                    let ghost rem = (cnt - j) as nat;
                    assert(dec_chars_at(b@, q as int, rem) == (match dec_chars_at(
                        b@,
                        q as int + 4,
                        (rem - 1) as nat,
                    ) {
                        Some(rest) => Some((seq![ch] + rest.0, rest.1)),
                        None => None::<(Seq<char>, int)>,
                    }));
                    if dec_chars_at(b@, q as int + 4, (rem - 1) as nat) is Some {
                        let rest = dec_chars_at(b@, q as int + 4, (rem - 1) as nat)->0;
                        assert(cs@.push(ch) + rest.0 =~= cs@ + (seq![ch] + rest.0));
                    }
                }
                cs.push(ch);
                q = q + 4;
                j = j + 1;
            },
            None => {
                return None;
            },
        }
    }
    proof {
        assert(cs@ + Seq::<char>::empty() =~= cs@);
    }
    let content = chars_to_string(&cs);
    if q >= n {
        return None;
    }
    let tag = b[q];
    if tag == 0 {
        Some(((key, CacheEntry { content, align: None }), q + 1))
    } else if tag == 1 {
        if n - q < 9 {
            return None;
        }
        let m = read_u64(b, q + 1);
        if m <= 0x7fffffffffffffffu64 {
            Some(((key, CacheEntry { content, align: Some(m as i64) }), q + 9))
        } else {
            None
        }
    } else if tag == 2 {
        if n - q < 9 {
            return None;
        }
        let m = read_u64(b, q + 1);
        if 1 <= m && m <= 0x8000000000000000u64 {
            let v: i64 = if m == 0x8000000000000000u64 {
                i64::MIN
            } else {
                -(m as i64)
            };
            Some(((key, CacheEntry { content, align: Some(v) }), q + 9))
        } else {
            None
        }
    } else {
        None
    }
}

fn check_distinct(entries: &Vec<(u64, CacheEntry)>) -> (r: bool)
    ensures
        r == distinct_keys(entries@),
{
    let n = entries.len();
    let mut i: usize = 0;
    while i < n
        invariant
            i <= n,
            n == entries@.len(),
            forall|a: int, c: int|
                0 <= a < c < entries@.len() && a < i ==> entries@[a].0 != entries@[c].0,
        decreases n - i,
    {
        let mut j: usize = i + 1;
        while j < n
            invariant
                i < n,
                i < j <= n,
                n == entries@.len(),
                forall|c: int| i < c < j ==> entries@[i as int].0 != entries@[c].0,
            decreases n - j,
        {
            if entries[i].0 == entries[j].0 {
                return false;
            }
            j += 1;
        }
        i += 1;
    }
    true
}

/// Reconstructs a cache from its persisted blob.  A malformed blob, a
/// truncated blob, trailing bytes, or a duplicated key are all hard load
/// errors; nothing is silently dropped.
pub fn load_cache(bytes: &Vec<u8>) -> (r: Result<ContentCache, CacheLoadError>)
    ensures
        match r {
            Ok(c) => {
                &&& c.wf()
                &&& decode_cache(bytes@) is Some
                &&& entries_data(c.entries_seq()) == decode_cache(bytes@)->0
            },
            Err(_) => decode_cache(bytes@) is None || !distinct_data_keys(
                decode_cache(bytes@)->0,
            ),
        },
{
    let n = bytes.len();
    if n < 8 {
        return Err(CacheLoadError::Malformed);
    }
    let count = read_u64(bytes, 0);
    let mut entries: Vec<(u64, CacheEntry)> = Vec::new();
    let mut p: usize = 8;
    let mut k: u64 = 0;
    proof {
        assert(entries_data(entries@) =~= Seq::<(u64, Seq<char>, Option<i64>)>::empty());
    }
    while k < count
        invariant
            8 <= p <= n,
            n == bytes@.len(),
            k <= count,
            count == dec_u64_at(bytes@, 0),
            match dec_entries_at(bytes@, p as int, (count - k) as nat) {
                Some(rest) => dec_entries_at(bytes@, 8, count as nat) == Some(
                    (entries_data(entries@) + rest.0, rest.1),
                ),
                None => dec_entries_at(bytes@, 8, count as nat) is None,
            },
        decreases count - k,
    {
        match read_entry(bytes, p) {
            Some((pair, next)) => {
                proof {
                    let ghost rem = (count - k) as nat;
                    assert(dec_entries_at(bytes@, p as int, rem) == (match dec_entries_at(
                        bytes@,
                        next as int,
                        (rem - 1) as nat,
                    ) {
                        Some(rest) => Some((seq![entry_data(pair)] + rest.0, rest.1)),
                        None => None::<(Seq<(u64, Seq<char>, Option<i64>)>, int)>,
                    }));
                    if dec_entries_at(bytes@, next as int, (rem - 1) as nat) is Some {
                        let rest = dec_entries_at(bytes@, next as int, (rem - 1) as nat)->0;
                        assert(entries_data(entries@.push(pair)) =~= entries_data(entries@).push(
                            entry_data(pair),
                        ));
                        assert(entries_data(entries@).push(entry_data(pair)) + rest.0
                            =~= entries_data(entries@) + (seq![entry_data(pair)] + rest.0));
                    }
                }
                entries.push(pair);
                p = next;
                k = k + 1;
            },
            None => {
                return Err(CacheLoadError::Malformed);
            },
        }
    }
    proof {
        assert(entries_data(entries@) + Seq::<(u64, Seq<char>, Option<i64>)>::empty()
            =~= entries_data(entries@));
    }
    if p != n {
        return Err(CacheLoadError::Malformed);
    }
    if !check_distinct(&entries) {
        proof {
            let es = entries@;
            assert(exists|a: int, c: int| 0 <= a < c < es.len() && es[a].0 == es[c].0);
            let (a, c) = choose|a: int, c: int| 0 <= a < c < es.len() && es[a].0 == es[c].0;
            assert(entries_data(es)[a] == entry_data(es[a]));
            assert(entries_data(es)[c] == entry_data(es[c]));
            assert(entries_data(es)[a].0 == entries_data(es)[c].0);
        }
        return Err(CacheLoadError::Malformed);
    }
    Ok(ContentCache::from_entries(entries))
}

} // verus!
