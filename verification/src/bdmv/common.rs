//! Shared plumbing of the BDMV parsers: big-endian fields, a
//! bounds-checked cursor, the common file header, and clip file names.
use vstd::prelude::*;
use vstd::string::*;
use vstd::utf8::{decode_utf8, valid_utf8};

use crate::error::BlurayError;
use crate::text::{comma_list, dec_text, push_comma_list, push_dec};

verus! {

// ---------------------------------------------------------------------
// Big-endian fields
// ---------------------------------------------------------------------

/// The two bytes at `i`, most significant first.
#[verifier::opaque]
pub open spec fn be16(s: Seq<u8>, i: int) -> u16 {
    (s[i] * 256 + s[i + 1]) as u16
}

/// The three bytes at `i`, most significant first.
#[verifier::opaque]
pub open spec fn be24(s: Seq<u8>, i: int) -> u32 {
    (s[i] * 65536 + be16(s, i + 1)) as u32
}

/// The four bytes at `i`, most significant first.
#[verifier::opaque]
pub open spec fn be32(s: Seq<u8>, i: int) -> u32 {
    (be16(s, i) * 65536 + be16(s, i + 2)) as u32
}

/// The eight bytes at `i`, most significant first.
#[verifier::opaque]
pub open spec fn be64(s: Seq<u8>, i: int) -> u64 {
    (be32(s, i) * 0x1_0000_0000 + be32(s, i + 4)) as u64
}

/// The four bytes at `i` as an array.
#[verifier::opaque]
pub open spec fn array4_at(s: Seq<u8>, i: int) -> [u8; 4] {
    [s[i], s[i + 1], s[i + 2], s[i + 3]]
}

/// The three bytes at `i` as an array.
#[verifier::opaque]
pub open spec fn array3_at(s: Seq<u8>, i: int) -> [u8; 3] {
    [s[i], s[i + 1], s[i + 2]]
}

/// One byte on the wire.
#[verifier::opaque]
pub open spec fn enc8(x: u8) -> Seq<u8> {
    seq![x]
}

/// `x` as two bytes, most significant first.
#[verifier::opaque]
pub open spec fn enc16(x: u16) -> Seq<u8> {
    seq![(x / 256) as u8, (x % 256) as u8]
}

/// The low 24 bits of `x` as three bytes, most significant first.
#[verifier::opaque]
pub open spec fn enc24(x: u32) -> Seq<u8> {
    seq![((x / 65536) % 256) as u8, ((x / 256) % 256) as u8, (x % 256) as u8]
}

/// `x` as four bytes, most significant first.
#[verifier::opaque]
pub open spec fn enc32(x: u32) -> Seq<u8> {
    enc16((x / 65536) as u16) + enc16((x % 65536) as u16)
}

/// `x` as eight bytes, most significant first.
#[verifier::opaque]
pub open spec fn enc64(x: u64) -> Seq<u8> {
    enc32((x / 0x1_0000_0000) as u32) + enc32((x % 0x1_0000_0000) as u32)
}

/// The bytes of a four-byte array.
#[verifier::opaque]
pub open spec fn enc_array4(a: [u8; 4]) -> Seq<u8> {
    seq![a[0], a[1], a[2], a[3]]
}

/// The bytes of a three-byte array.
#[verifier::opaque]
pub open spec fn enc_array3(a: [u8; 3]) -> Seq<u8> {
    seq![a[0], a[1], a[2]]
}

/// `n` zero bytes.
#[verifier::opaque]
pub open spec fn zeros(n: nat) -> Seq<u8> {
    Seq::new(n, |i: int| 0u8)
}

/// `s` holds the bytes `part` from `pos` on.
#[verifier::opaque]
pub open spec fn has_at(s: Seq<u8>, pos: int, part: Seq<u8>) -> bool {
    &&& 0 <= pos
    &&& pos + part.len() <= s.len()
    &&& forall|i: int| 0 <= i < part.len() ==> #[trigger] part[i] == s[pos + i]
}

/// Where a concatenation is found, its halves are found in turn.
pub broadcast proof fn lemma_has_at_concat(s: Seq<u8>, pos: int, a: Seq<u8>, b: Seq<u8>)
    ensures
        #[trigger] has_at(s, pos, a + b) ==> has_at(s, pos, a) && has_at(s, pos + a.len(), b),
{
    reveal(has_at);
    if has_at(s, pos, a + b) {
        assert forall|i: int| 0 <= i < a.len() implies #[trigger] a[i] == s[pos + i] by {
            assert((a + b)[i] == a[i]);
        }
        assert forall|i: int| 0 <= i < b.len() implies #[trigger] b[i] == s[pos + a.len() + i] by {
            assert((a + b)[a.len() + i] == b[i]);
        }
    }
}

/// What is found lies inside.
pub broadcast proof fn lemma_has_at_bounds(s: Seq<u8>, pos: int, part: Seq<u8>)
    requires
        #[trigger] has_at(s, pos, part),
    ensures
        0 <= pos,
        pos + part.len() <= s.len(),
{
    reveal(has_at);
}

pub broadcast proof fn lemma_has_at_8(s: Seq<u8>, pos: int, x: u8)
    requires
        #[trigger] has_at(s, pos, enc8(x)),
    ensures
        s[pos] == x,
{
    reveal(has_at);
    reveal(enc8);
    assert(enc8(x)[0] == s[pos + 0]);
}

pub broadcast proof fn lemma_has_at_16(s: Seq<u8>, pos: int, x: u16)
    requires
        #[trigger] has_at(s, pos, enc16(x)),
    ensures
        be16(s, pos) == x,
{
    reveal(has_at);
    reveal(enc16);
    reveal(be16);
    assert(enc16(x)[0] == s[pos + 0]);
    assert(enc16(x)[1] == s[pos + 1]);
}

pub broadcast proof fn lemma_has_at_24(s: Seq<u8>, pos: int, x: u32)
    requires
        #[trigger] has_at(s, pos, enc24(x)),
        x < 0x100_0000,
    ensures
        be24(s, pos) == x,
{
    reveal(has_at);
    reveal(enc24);
    reveal(be16);
    reveal(be24);
    assert(enc24(x)[0] == s[pos + 0]);
    assert(enc24(x)[1] == s[pos + 1]);
    assert(enc24(x)[2] == s[pos + 2]);
}

pub broadcast proof fn lemma_has_at_32(s: Seq<u8>, pos: int, x: u32)
    requires
        #[trigger] has_at(s, pos, enc32(x)),
    ensures
        be32(s, pos) == x,
{
    reveal(enc16);
    reveal(enc32);
    reveal(be32);
    lemma_has_at_concat(s, pos, enc16((x / 65536) as u16), enc16((x % 65536) as u16));
    lemma_has_at_16(s, pos, (x / 65536) as u16);
    lemma_has_at_16(s, pos + 2, (x % 65536) as u16);
}

pub broadcast proof fn lemma_has_at_64(s: Seq<u8>, pos: int, x: u64)
    requires
        #[trigger] has_at(s, pos, enc64(x)),
    ensures
        be64(s, pos) == x,
{
    reveal(enc16);
    reveal(enc32);
    reveal(enc64);
    reveal(be64);
    lemma_has_at_concat(
        s,
        pos,
        enc32((x / 0x1_0000_0000) as u32),
        enc32((x % 0x1_0000_0000) as u32),
    );
    lemma_has_at_32(s, pos, (x / 0x1_0000_0000) as u32);
    lemma_has_at_32(s, pos + 4, (x % 0x1_0000_0000) as u32);
}

pub broadcast proof fn lemma_has_at_array4(s: Seq<u8>, pos: int, a: [u8; 4])
    requires
        #[trigger] has_at(s, pos, enc_array4(a)),
    ensures
        array4_at(s, pos) == a,
{
    reveal(has_at);
    reveal(enc_array4);
    reveal(array4_at);
    let e = enc_array4(a);
    assert(e[0] == s[pos + 0]);
    assert(e[1] == s[pos + 1]);
    assert(e[2] == s[pos + 2]);
    assert(e[3] == s[pos + 3]);
    assert(array4_at(s, pos) =~= a);
}

pub broadcast proof fn lemma_has_at_array3(s: Seq<u8>, pos: int, a: [u8; 3])
    requires
        #[trigger] has_at(s, pos, enc_array3(a)),
    ensures
        array3_at(s, pos) == a,
{
    reveal(has_at);
    reveal(enc_array3);
    reveal(array3_at);
    let e = enc_array3(a);
    assert(e[0] == s[pos + 0]);
    assert(e[1] == s[pos + 1]);
    assert(e[2] == s[pos + 2]);
    assert(array3_at(s, pos) =~= a);
}

pub broadcast proof fn lemma_enc_array3_len(a: [u8; 3])
    ensures
        (#[trigger] enc_array3(a)).len() == 3,
{
    reveal(enc_array3);
}

pub broadcast proof fn lemma_enc8_len(x: u8)
    ensures
        (#[trigger] enc8(x)).len() == 1,
{
    reveal(enc8);
}

pub broadcast proof fn lemma_enc16_len(x: u16)
    ensures
        (#[trigger] enc16(x)).len() == 2,
{
    reveal(enc16);
}

pub broadcast proof fn lemma_enc24_len(x: u32)
    ensures
        (#[trigger] enc24(x)).len() == 3,
{
    reveal(enc24);
}

pub broadcast proof fn lemma_enc32_len(x: u32)
    ensures
        (#[trigger] enc32(x)).len() == 4,
{
    reveal(enc16);
    reveal(enc32);
}

pub broadcast proof fn lemma_enc64_len(x: u64)
    ensures
        (#[trigger] enc64(x)).len() == 8,
{
    reveal(enc64);
    broadcast use lemma_enc32_len;

}

pub broadcast proof fn lemma_enc_array4_len(a: [u8; 4])
    ensures
        (#[trigger] enc_array4(a)).len() == 4,
{
    reveal(enc_array4);
}

pub broadcast proof fn lemma_zeros_len(n: nat)
    ensures
        (#[trigger] zeros(n)).len() == n,
{
    reveal(zeros);
}

/// The facts that read a field back where it was written.
pub broadcast group group_has_at {
    lemma_has_at_concat,
    lemma_has_at_bounds,
    lemma_has_at_8,
    lemma_has_at_16,
    lemma_has_at_24,
    lemma_has_at_32,
    lemma_has_at_64,
    lemma_has_at_array4,
    lemma_has_at_array3,
    lemma_enc_array3_len,
    lemma_enc8_len,
    lemma_enc16_len,
    lemma_enc24_len,
    lemma_enc32_len,
    lemma_enc64_len,
    lemma_enc_array4_len,
    lemma_zeros_len,
}

/// What is found is that part of the whole.
pub proof fn lemma_has_at_subrange(s: Seq<u8>, pos: int, part: Seq<u8>)
    requires
        has_at(s, pos, part),
    ensures
        s.subrange(pos, pos + part.len()) == part,
{
    reveal(has_at);
    assert forall|i: int| 0 <= i < part.len() implies s.subrange(pos, pos + part.len())[i]
        == #[trigger] part[i] by {}
    assert(s.subrange(pos, pos + part.len()) =~= part);
}

/// A four-byte number written back.
pub proof fn lemma_enc32_be32(s: Seq<u8>, p: int)
    requires
        0 <= p,
        p + 4 <= s.len(),
    ensures
        enc32(be32(s, p)) == s.subrange(p, p + 4),
{
    reveal(be16);
    reveal(be32);
    reveal(enc16);
    reveal(enc32);
    let x = be32(s, p);
    assert(x / 65536 == be16(s, p) && x % 65536 == be16(s, p + 2));
    assert(enc32(x) =~= s.subrange(p, p + 4));
}

/// A two-byte number written back.
pub proof fn lemma_enc16_be16(s: Seq<u8>, p: int)
    requires
        0 <= p,
        p + 2 <= s.len(),
    ensures
        enc16(be16(s, p)) == s.subrange(p, p + 2),
{
    reveal(be16);
    reveal(enc16);
    assert(enc16(be16(s, p)) =~= s.subrange(p, p + 2));
}

/// Everything is found in itself.
pub proof fn lemma_has_at_self(s: Seq<u8>)
    ensures
        has_at(s, 0, s),
{
    reveal(has_at);
}

/// Appending to a fresh buffer starts with the first part.
pub broadcast proof fn lemma_empty_add(a: Seq<u8>)
    ensures
        #[trigger] (Seq::<u8>::empty() + a) == a,
{
    assert(Seq::<u8>::empty() + a =~= a);
}

// ---------------------------------------------------------------------
// Lists of records
// ---------------------------------------------------------------------

/// `n` records, one after the other, the first at `pos`. `item` says what
/// record begins at an offset and where it ends, or `None` where no valid
/// record begins. The result holds the records and the end of the last.
#[verifier::opaque]
pub open spec fn list_at<T>(
    item: spec_fn(int) -> Option<(T, int)>,
    pos: int,
    n: nat,
) -> Option<(Seq<T>, int)>
    decreases n,
{
    if n == 0 {
        Some((Seq::empty(), pos))
    } else {
        match list_at(item, pos, (n - 1) as nat) {
            None => None,
            Some((xs, p)) => match item(p) {
                None => None,
                Some((x, q)) => Some((xs.push(x), q)),
            },
        }
    }
}

/// The encodings of `xs`, one after the other.
#[verifier::opaque]
pub open spec fn enc_list<T>(enc: spec_fn(T) -> Seq<u8>, xs: Seq<T>) -> Seq<u8>
    decreases xs.len(),
{
    if xs.len() == 0 {
        Seq::empty()
    } else {
        enc_list(enc, xs.drop_last()) + enc(xs.last())
    }
}

/// A list that is broken after `i` records is broken at any greater length.
pub proof fn lemma_list_at_none<T>(
    item: spec_fn(int) -> Option<(T, int)>,
    pos: int,
    i: nat,
    n: nat,
)
    requires
        i <= n,
        list_at(item, pos, i) is None,
    ensures
        list_at(item, pos, n) is None,
    decreases n,
{
    reveal(list_at);
    if i < n {
        lemma_list_at_none(item, pos, i, (n - 1) as nat);
    }
}

/// What is said of a list that is broken: what is said of the place of its
/// first broken record.
pub open spec fn list_refusal<T>(
    item: spec_fn(int) -> Option<(T, int)>,
    text: spec_fn(int) -> Seq<char>,
    pos: int,
    n: nat,
) -> Seq<char>
    decreases n,
{
    if n == 0 {
        Seq::empty()
    } else {
        match list_at(item, pos, (n - 1) as nat) {
            None => list_refusal(item, text, pos, (n - 1) as nat),
            Some((_, p)) => text(p),
        }
    }
}

/// What is said of a list does not depend on what follows the broken record.
pub proof fn lemma_list_refusal<T>(
    item: spec_fn(int) -> Option<(T, int)>,
    text: spec_fn(int) -> Seq<char>,
    pos: int,
    i: nat,
    n: nat,
)
    requires
        i <= n,
        list_at(item, pos, i) is None,
    ensures
        list_at(item, pos, n) is None,
        list_refusal(item, text, pos, n) == list_refusal(item, text, pos, i),
    decreases n,
{
    lemma_list_at_none(item, pos, i, n);
    if i < n {
        lemma_list_at_none(item, pos, i, (n - 1) as nat);
        lemma_list_refusal(item, text, pos, i, (n - 1) as nat);
    }
}

/// A list holds as many records as were asked for.
pub proof fn lemma_list_at_len<T>(item: spec_fn(int) -> Option<(T, int)>, pos: int, n: nat)
    ensures
        list_at(item, pos, n) matches Some((xs, _)) ==> xs.len() == n,
    decreases n,
{
    reveal(list_at);
    if n > 0 {
        lemma_list_at_len(item, pos, (n - 1) as nat);
    }
}

/// Whether a record stands at `p` and ends at `q`.
pub open spec fn stands<T>(item: spec_fn(int) -> Option<(T, int)>, p: int, x: T, q: int) -> bool {
    item(p) == Some((x, q))
}

/// Whether a record stands anywhere.
pub open spec fn stands_somewhere<T>(item: spec_fn(int) -> Option<(T, int)>, x: T) -> bool {
    exists|p: int, q: int| stands(item, p, x, q)
}

/// Every record of a list stands somewhere.
pub proof fn lemma_list_at_item<T>(
    item: spec_fn(int) -> Option<(T, int)>,
    pos: int,
    n: nat,
    i: int,
)
    requires
        0 <= i < n,
    ensures
        list_at(item, pos, n) matches Some((xs, _)) ==> stands_somewhere(item, xs[i]),
    decreases n,
{
    reveal(list_at);
    lemma_list_at_len(item, pos, (n - 1) as nat);
    match list_at(item, pos, (n - 1) as nat) {
        Some((before, p)) => match item(p) {
            Some((x, q)) => {
                let xs = before.push(x);
                assert(list_at(item, pos, n) == Some((xs, q)));
                if i < n - 1 {
                    lemma_list_at_item(item, pos, (n - 1) as nat, i);
                    assert(xs[i] == before[i]);
                } else {
                    assert(stands(item, p, xs[i], q));
                }
            },
            None => {},
        },
        None => {},
    }
}

/// Records of `size` bytes stand one behind the other: record `i` of a list
/// stands `i` times the size behind its first.
pub proof fn lemma_list_in_steps<T>(
    item: spec_fn(int) -> Option<(T, int)>,
    pos: int,
    n: nat,
    size: int,
)
    requires
        forall|p: int|
            p >= pos && #[trigger] item(p) is Some ==> (item(p)->0).1 == p + size,
        size >= 0,
    ensures
        list_at(item, pos, n) matches Some((xs, end)) ==> {
            &&& xs.len() == n
            &&& end == pos + n * size
            &&& forall|i: int|
                0 <= i < n ==> item(pos + i * size) == Some(
                    (#[trigger] xs[i], pos + i * size + size),
                )
        },
    decreases n,
{
    reveal(list_at);
    if n > 0 {
        let k = (n - 1) as nat;
        lemma_list_in_steps(item, pos, k, size);
        assert(n * size == k * size + size) by (nonlinear_arith)
            requires
                n == k + 1,
        ;
        assert(k * size >= 0) by (nonlinear_arith)
            requires
                size >= 0,
                k >= 0,
        ;
    } else {
        assert(0 * size == 0) by (nonlinear_arith);
    }
}

/// Where a record stands at every step, there is a list.
pub proof fn lemma_list_of_steps<T>(
    item: spec_fn(int) -> Option<(T, int)>,
    pos: int,
    n: nat,
    size: int,
)
    requires
        forall|p: int|
            p >= pos && #[trigger] item(p) is Some ==> (item(p)->0).1 == p + size,
        size >= 0,
        forall|i: int| 0 <= i < n ==> #[trigger] item(pos + i * size) is Some,
    ensures
        list_at(item, pos, n) is Some,
    decreases n,
{
    reveal(list_at);
    if n > 0 {
        let k = (n - 1) as nat;
        lemma_list_of_steps(item, pos, k, size);
        lemma_list_in_steps(item, pos, k, size);
        assert(item(pos + k * size) is Some);
    }
}

/// The place that is reached from `p` in `n` steps.
pub open spec fn stepped(next: spec_fn(int) -> int, p: int, n: int) -> int
    decreases n,
{
    if n <= 0 {
        p
    } else {
        next(stepped(next, p, n - 1))
    }
}

/// Steps that do not lead back.
pub proof fn lemma_stepped(next: spec_fn(int) -> int, p: int, n: int)
    requires
        forall|q: int| q >= p ==> #[trigger] next(q) >= q,
    ensures
        stepped(next, p, n) >= p,
    decreases n,
{
    if n > 0 {
        lemma_stepped(next, p, n - 1);
    }
}

/// Where the bytes say where the next record begins: a list from step `a` on
/// holds the records at the following steps, and there is one exactly where a
/// record can be read at each of them.
pub proof fn lemma_list_by_steps<T>(
    item: spec_fn(int) -> Option<(T, int)>,
    next: spec_fn(int) -> int,
    good: spec_fn(int) -> bool,
    p: int,
    a: int,
    n: nat,
)
    requires
        0 <= a,
        forall|q: int| q >= p ==> #[trigger] next(q) >= q,
        forall|q: int| q >= p ==> (#[trigger] item(q) is Some <==> good(q)),
        forall|q: int| q >= p && #[trigger] item(q) is Some ==> (item(q)->0).1 == next(q),
    ensures
        list_at(item, stepped(next, p, a), n) is Some <==> forall|i: int|
            a <= i < a + n ==> good(#[trigger] stepped(next, p, i)),
        list_at(item, stepped(next, p, a), n) matches Some((xs, end)) ==> {
            &&& xs.len() == n
            &&& end == stepped(next, p, a + n)
            &&& forall|i: int|
                0 <= i < n ==> item(stepped(next, p, a + i)) == Some(
                    (#[trigger] xs[i], stepped(next, p, a + i + 1)),
                )
        },
    decreases n,
{
    reveal(list_at);
    if n > 0 {
        let k = (n - 1) as nat;
        lemma_list_by_steps(item, next, good, p, a, k);
        lemma_stepped(next, p, a + k);
        let last = stepped(next, p, a + k);
        assert(stepped(next, p, a + n) == next(last));
        if list_at(item, stepped(next, p, a), k) is Some {
            if good(last) {
                assert forall|i: int| a <= i < a + n implies good(
                    #[trigger] stepped(next, p, i),
                ) by {}
            }
        }
    }
}

/// Whether records stand one behind the other, at the places `ps`.
pub open spec fn in_line<T>(
    item: spec_fn(int) -> Option<(T, int)>,
    pos: int,
    xs: Seq<T>,
    ps: Seq<int>,
) -> bool {
    &&& ps.len() == xs.len() + 1
    &&& ps[0] == pos
    &&& forall|i: int| 0 <= i < xs.len() ==> item(ps[i]) == Some((#[trigger] xs[i], ps[i + 1]))
}

/// A list is its records, one behind the other.
pub proof fn lemma_list_in_line<T>(item: spec_fn(int) -> Option<(T, int)>, pos: int, n: nat)
    ensures
        list_at(item, pos, n) matches Some((xs, end)) ==> xs.len() == n && exists|ps: Seq<int>|
            #[trigger] in_line(item, pos, xs, ps) && ps[n as int] == end,
    decreases n,
{
    reveal(list_at);
    if let Some((xs, end)) = list_at(item, pos, n) {
        if n == 0 {
            assert(in_line(item, pos, xs, seq![pos]));
        } else {
            let k = (n - 1) as nat;
            lemma_list_in_line(item, pos, k);
            let (before, p) = list_at(item, pos, k)->0;
            let qs = choose|qs: Seq<int>|
                #[trigger] in_line(item, pos, before, qs) && qs[k as int] == p;
            let ps = qs.push(end);
            assert forall|i: int| 0 <= i < xs.len() implies item(ps[i]) == Some(
                (#[trigger] xs[i], ps[i + 1]),
            ) by {
                if i < k {
                    assert(xs[i] == before[i]);
                }
            }
            assert(in_line(item, pos, xs, ps));
        }
    }
}

/// Records that stand one behind the other are a list.
pub proof fn lemma_list_of_line<T>(
    item: spec_fn(int) -> Option<(T, int)>,
    pos: int,
    xs: Seq<T>,
    ps: Seq<int>,
)
    requires
        in_line(item, pos, xs, ps),
    ensures
        list_at(item, pos, xs.len()) == Some((xs, ps[xs.len() as int])),
    decreases xs.len(),
{
    reveal(list_at);
    if xs.len() == 0 {
        assert(xs =~= Seq::empty());
    } else {
        let ys = xs.drop_last();
        let qs = ps.drop_last();
        let k = ys.len() as int;
        assert forall|i: int| 0 <= i < ys.len() implies item(qs[i]) == Some(
            (#[trigger] ys[i], qs[i + 1]),
        ) by {
            assert(ys[i] == xs[i]);
        }
        lemma_list_of_line(item, pos, ys, qs);
        assert(item(ps[k]) == Some((xs[k], ps[k + 1])));
        assert(ys.push(xs[k]) =~= xs);
    }
}

/// Records that are each read back from their encoding are read back as a
/// list from the list's encoding.
pub proof fn lemma_list_round_trip<T>(
    s: Seq<u8>,
    item: spec_fn(int) -> Option<(T, int)>,
    enc: spec_fn(T) -> Seq<u8>,
    pos: int,
    xs: Seq<T>,
)
    requires
        has_at(s, pos, enc_list(enc, xs)),
        forall|i: int, p: int|
            0 <= i < xs.len() && #[trigger] has_at(s, p, enc(xs[i])) ==> item(p) == Some(
                (xs[i], p + enc(xs[i]).len()),
            ),
    ensures
        list_at(item, pos, xs.len()) == Some((xs, pos + enc_list(enc, xs).len())),
    decreases xs.len(),
{
    reveal(enc_list);
    reveal(list_at);
    if xs.len() == 0 {
        assert(xs =~= Seq::<T>::empty());
    } else {
        let ys = xs.drop_last();
        let n = (xs.len() - 1) as int;
        lemma_has_at_concat(s, pos, enc_list(enc, ys), enc(xs.last()));
        assert forall|i: int, p: int|
            0 <= i < ys.len() && #[trigger] has_at(s, p, enc(ys[i])) implies item(p) == Some(
            (ys[i], p + enc(ys[i]).len()),
        ) by {
            assert(ys[i] == xs[i]);
            assert(has_at(s, p, enc(xs[i])));
        }
        lemma_list_round_trip(s, item, enc, pos, ys);
        assert(has_at(s, pos + enc_list(enc, ys).len(), enc(xs[n])));
        assert(ys.push(xs.last()) =~= xs);
    }
}

/// The encoding of a list of records of one size.
pub proof fn lemma_enc_list_len<T>(enc: spec_fn(T) -> Seq<u8>, xs: Seq<T>, size: nat)
    requires
        forall|i: int| 0 <= i < xs.len() ==> (#[trigger] enc(xs[i])).len() == size,
    ensures
        enc_list(enc, xs).len() == xs.len() * size,
    decreases xs.len(),
{
    reveal(enc_list);
    if xs.len() > 0 {
        let ys = xs.drop_last();
        assert forall|i: int| 0 <= i < ys.len() implies (#[trigger] enc(ys[i])).len() == size by {
            assert(ys[i] == xs[i]);
        }
        lemma_enc_list_len(enc, ys, size);
        assert(enc(xs[xs.len() - 1]).len() == size);
        assert(xs.len() * size == ys.len() * size + size) by (nonlinear_arith)
            requires
                xs.len() == ys.len() + 1,
        ;
    }
}

/// Records of at most `size` bytes each.
pub proof fn lemma_enc_list_bound<T>(enc: spec_fn(T) -> Seq<u8>, xs: Seq<T>, size: nat)
    requires
        forall|i: int| 0 <= i < xs.len() ==> (#[trigger] enc(xs[i])).len() <= size,
    ensures
        enc_list(enc, xs).len() <= xs.len() * size,
    decreases xs.len(),
{
    reveal(enc_list);
    if xs.len() > 0 {
        let ys = xs.drop_last();
        assert forall|i: int| 0 <= i < ys.len() implies (#[trigger] enc(ys[i])).len() <= size by {
            assert(ys[i] == xs[i]);
        }
        lemma_enc_list_bound(enc, ys, size);
        assert(enc(xs[xs.len() - 1]).len() <= size);
        assert(xs.len() * size == ys.len() * size + size) by (nonlinear_arith)
            requires
                xs.len() == ys.len() + 1,
        ;
    }
}

/// One more record at the end.
pub proof fn lemma_enc_list_push<T>(enc: spec_fn(T) -> Seq<u8>, xs: Seq<T>, i: int)
    requires
        0 <= i < xs.len(),
    ensures
        enc_list(enc, xs.take(i + 1)) == enc_list(enc, xs.take(i)) + enc(xs[i]),
{
    reveal(enc_list);
    assert(xs.take(i + 1).drop_last() =~= xs.take(i));
    assert(xs.take(i + 1).last() == xs[i]);
}

// ---------------------------------------------------------------------
// Executable field access
// ---------------------------------------------------------------------

/// Append `x`, most significant byte first.
pub fn put_u16(out: &mut Vec<u8>, x: u16)
    ensures
        final(out)@ == old(out)@ + enc16(x),
{
    proof {
        reveal(enc16);
    }
    out.push((x / 256) as u8);
    out.push((x % 256) as u8);
    assert(out@ =~= old(out)@ + enc16(x));
}

/// Append the low 24 bits of `x`, most significant byte first.
pub fn put_u24(out: &mut Vec<u8>, x: u32)
    ensures
        final(out)@ == old(out)@ + enc24(x),
{
    proof {
        reveal(enc24);
    }
    out.push(((x / 65536) % 256) as u8);
    out.push(((x / 256) % 256) as u8);
    out.push((x % 256) as u8);
    assert(out@ =~= old(out)@ + enc24(x));
}

/// Append `x`, most significant byte first.
pub fn put_u32(out: &mut Vec<u8>, x: u32)
    ensures
        final(out)@ == old(out)@ + enc32(x),
{
    proof {
        reveal(enc32);
    }
    put_u16(out, (x / 65536) as u16);
    put_u16(out, (x % 65536) as u16);
    assert(out@ =~= old(out)@ + enc32(x));
}

/// Append `x`, most significant byte first.
pub fn put_u64(out: &mut Vec<u8>, x: u64)
    ensures
        final(out)@ == old(out)@ + enc64(x),
{
    proof {
        reveal(enc64);
    }
    put_u32(out, (x / 0x1_0000_0000) as u32);
    put_u32(out, (x % 0x1_0000_0000) as u32);
    assert(out@ =~= old(out)@ + enc64(x));
}

/// Append one byte.
pub fn put_u8(out: &mut Vec<u8>, x: u8)
    ensures
        final(out)@ == old(out)@ + enc8(x),
{
    proof {
        reveal(enc8);
    }
    out.push(x);
    assert(out@ =~= old(out)@ + enc8(x));
}

/// Append `n` zero bytes.
pub fn put_zeros(out: &mut Vec<u8>, n: usize)
    ensures
        final(out)@ == old(out)@ + zeros(n as nat),
{
    proof {
        reveal(zeros);
    }
    let mut i: usize = 0;
    while i < n
        invariant
            i <= n,
            out@ == old(out)@ + zeros(i as nat),
        decreases n - i,
    {
        proof {
            reveal(zeros);
        }
        out.push(0);
        i += 1;
        assert(out@ =~= old(out)@ + zeros(i as nat));
    }
}

/// Append the four bytes of `a`.
pub fn put_array4(out: &mut Vec<u8>, a: &[u8; 4])
    ensures
        final(out)@ == old(out)@ + enc_array4(*a),
{
    proof {
        reveal(enc_array4);
    }
    out.push(a[0]);
    out.push(a[1]);
    out.push(a[2]);
    out.push(a[3]);
    assert(out@ =~= old(out)@ + enc_array4(*a));
}

/// Append the three bytes of `a`.
pub fn put_array3(out: &mut Vec<u8>, a: &[u8; 3])
    ensures
        final(out)@ == old(out)@ + enc_array3(*a),
{
    proof {
        reveal(enc_array3);
    }
    out.push(a[0]);
    out.push(a[1]);
    out.push(a[2]);
    assert(out@ =~= old(out)@ + enc_array3(*a));
}

/// Append the bytes of `part`.
pub fn put_bytes(out: &mut Vec<u8>, part: &Vec<u8>)
    ensures
        final(out)@ == old(out)@ + part@,
{
    out.extend_from_slice(part.as_slice());
    assert(out@ =~= old(out)@ + part@);
}

/// The low 16 bits of a length.
pub fn low_u16(n: usize) -> (r: u16)
    ensures
        r == n % 0x1_0000,
{
    (n % 0x1_0000) as u16
}

/// The low 32 bits of a length.
pub fn low_u32(n: usize) -> (r: u32)
    ensures
        r as int == n as int % 0x1_0000_0000,
{
    let n: u64 = n as u64;
    (n % 0x1_0000_0000) as u32
}

/// The low 8 bits of a length.
pub fn low_u8(n: usize) -> (r: u8)
    ensures
        r == n % 0x100,
{
    (n % 0x100) as u8
}

/// The text that `bytes` encode, or `None` where they are no valid UTF-8.
///
/// Calls `std::str::from_utf8`, which accepts exactly the valid UTF-8
/// byte strings and hands back the text they encode.
#[verifier::external_body]
pub(crate) fn utf8_text(bytes: &[u8]) -> (r: Option<String>)
    ensures
        match r {
            Some(t) => valid_utf8(bytes@) && t@ == decode_utf8(bytes@),
            None => !valid_utf8(bytes@),
        },
{
    std::str::from_utf8(bytes).ok().map(|t| t.to_string())
}

/// The text that `bytes` encode, with replacement characters where they are
/// no valid UTF-8. Named after what `String::from_utf8_lossy` of std returns.
pub uninterp spec fn utf8_lossy(bytes: Seq<u8>) -> Seq<char>;

/// Text for display out of bytes that may not be valid UTF-8.
///
/// Calls `String::from_utf8_lossy`, whose result depends on the bytes alone
/// and is the text they encode where they are valid UTF-8. Which replacement
/// characters stand for invalid bytes is not said.
#[verifier::external_body]
pub(crate) fn lossy_text(bytes: &[u8]) -> (r: String)
    ensures
        r@ == utf8_lossy(bytes@),
        valid_utf8(bytes@) ==> r@ == decode_utf8(bytes@),
{
    String::from_utf8_lossy(bytes).into_owned()
}

/// The four bytes of `bytes` as an array reference.
///
/// Calls the `TryFrom<&[T]>` conversion of std, which keeps the elements
/// and succeeds when the length is that of the array.
#[verifier::external_body]
fn array4_ref(bytes: &[u8]) -> (r: &[u8; 4])
    requires
        bytes@.len() == 4,
    ensures
        r@ == bytes@,
{
    bytes.try_into().unwrap()
}

// ---------------------------------------------------------------------
// The header and the cursor
// ---------------------------------------------------------------------

/// The eight bytes every BDMV file begins with: a four-byte ASCII type
/// indicator (`b"INDX"`, `b"MPLS"`, `b"HDMV"`, `b"MOBJ"`) and a four-byte
/// ASCII version (`b"0200"` or `b"0100"`).
#[derive(Debug, Clone, Copy, PartialEq, Eq)]
pub struct BdmvHeader<'a> {
    pub type_indicator: &'a [u8; 4],
    pub version_number: &'a [u8; 4],
}

impl<'a> BdmvHeader<'a> {
    /// On-wire size of the header.
    pub const SIZE: usize = 8;

    /// Read the header from the front of `buf`.
    pub fn parse(buf: &'a [u8]) -> (r: Result<Self, BlurayError>)
        ensures
            match r {
                Ok(h) => buf@.len() >= 8 && h.type_indicator@ == buf@.subrange(0, 4)
                    && h.version_number@ == buf@.subrange(4, 8) && *h.type_indicator == array4_at(
                    buf@,
                    0,
                ) && *h.version_number == array4_at(buf@, 4),
                Err(e) => buf@.len() < 8 && e.is_malformed("BDMV header truncated"@),
            },
    {
        if buf.len() < Self::SIZE {
            return Err(BlurayError::malformed("BDMV header truncated"));
        }
        let type_indicator = array4_ref(vstd::slice::slice_subrange(buf, 0, 4));
        let version_number = array4_ref(vstd::slice::slice_subrange(buf, 4, 8));
        proof {
            reveal(array4_at);
        }
        assert(*type_indicator =~= array4_at(buf@, 0));
        assert(*version_number =~= array4_at(buf@, 4));
        Ok(BdmvHeader { type_indicator, version_number })
    }
}

/// What is said of a file whose type indicator is another one.
pub open spec fn type_text(file: Seq<char>, t: [u8; 4]) -> Seq<char> {
    file + " type_indicator ["@ + comma_list(t@) + "]"@
}

pub(crate) fn bad_type(file: &str, t: &[u8; 4]) -> (e: BlurayError)
    ensures
        e.is_malformed(type_text(file@, *t)),
{
    let mut text = file.to_owned();
    text.append(" type_indicator [");
    push_comma_list(&mut text, t.as_slice());
    text.append("]");
    BlurayError::Malformed(text)
}

/// What is said of a cursor that was sent behind the end.
pub open spec fn past_end_text(to: nat, len: nat) -> Seq<char> {
    "seek to "@ + dec_text(to) + " past end "@ + dec_text(len)
}

fn past_end(to: u128, len: usize) -> (e: BlurayError)
    ensures
        e.is_malformed(past_end_text(to as nat, len as nat)),
{
    let mut text = "seek to ".to_owned();
    push_dec(&mut text, to);
    text.append(" past end ");
    push_dec(&mut text, len as u128);
    BlurayError::Malformed(text)
}

/// Big-endian byte reader: a borrowed slice and a cursor. Every read is
/// bounds-checked and reports [`BlurayError::Malformed`] on an overrun,
/// leaving the cursor where it was.
#[derive(Debug, Clone)]
pub struct Reader<'a> {
    pub buf: &'a [u8],
    pub pos: usize,
}

impl<'a> Reader<'a> {
    /// True when `n` more bytes lie between the cursor and the end.
    pub open spec fn has(&self, n: int) -> bool {
        self.pos + n <= self.buf@.len()
    }

    /// A reader whose cursor is at the first byte.
    pub fn new(buf: &'a [u8]) -> (r: Self)
        ensures
            r.buf@ == buf@,
            r.pos == 0,
    {
        Reader { buf, pos: 0 }
    }

    /// How many bytes lie between the cursor and the end.
    pub fn remaining(&self) -> (n: usize)
        ensures
            n == if self.pos <= self.buf@.len() {
                self.buf@.len() - self.pos
            } else {
                0
            },
    {
        if self.pos <= self.buf.len() {
            self.buf.len() - self.pos
        } else {
            0
        }
    }

    /// Whether `n` more bytes lie between the cursor and the end.
    pub fn fits(&self, n: usize) -> (r: bool)
        ensures
            r == self.has(n as int),
            r ==> self.pos + n <= usize::MAX,
    {
        self.pos <= self.buf.len() && n <= self.buf.len() - self.pos
    }

    /// Move the cursor to `pos`, which may be the very end.
    pub fn seek(&mut self, pos: usize) -> (r: Result<(), BlurayError>)
        ensures
            final(self).buf@ == old(self).buf@,
            match r {
                Ok(_) => pos <= old(self).buf@.len() && final(self).pos == pos,
                Err(e) => pos > old(self).buf@.len() && e.is_malformed(
                    past_end_text(pos as nat, old(self).buf@.len()),
                ) && final(self).pos == old(self).pos,
            },
    {
        if pos > self.buf.len() {
            return Err(past_end(pos as u128, self.buf.len()));
        }
        self.pos = pos;
        Ok(())
    }

    /// Move the cursor to `base + n`.
    pub fn seek_from(&mut self, base: usize, n: usize) -> (r: Result<(), BlurayError>)
        ensures
            final(self).buf@ == old(self).buf@,
            match r {
                Ok(_) => base + n <= old(self).buf@.len() && final(self).pos == base + n,
                Err(e) => base + n > old(self).buf@.len() && e.is_malformed(
                    past_end_text((base + n) as nat, old(self).buf@.len()),
                ) && final(self).pos == old(self).pos,
            },
    {
        if base > self.buf.len() || n > self.buf.len() - base {
            return Err(past_end(base as u128 + n as u128, self.buf.len()));
        }
        self.pos = base + n;
        Ok(())
    }

    /// Move the cursor `n` bytes on.
    pub fn skip(&mut self, n: usize) -> (r: Result<(), BlurayError>)
        ensures
            final(self).buf@ == old(self).buf@,
            match r {
                Ok(_) => old(self).has(n as int) && final(self).pos == old(self).pos + n,
                Err(e) => !old(self).has(n as int) && e.is_malformed(
                    past_end_text((old(self).pos + n) as nat, old(self).buf@.len()),
                ) && final(self).pos == old(self).pos,
            },
    {
        self.seek_from(self.pos, n)
    }

    /// The next `n` bytes.
    pub fn slice(&mut self, n: usize) -> (r: Result<&'a [u8], BlurayError>)
        ensures
            final(self).buf@ == old(self).buf@,
            match r {
                Ok(s) => old(self).has(n as int) && s@ == old(self).buf@.subrange(
                    old(self).pos as int,
                    old(self).pos + n,
                ) && final(self).pos == old(self).pos + n,
                Err(e) => !old(self).has(n as int) && e.is_malformed("slice past end"@) && final(self).pos
                    == old(self).pos,
            },
    {
        if self.pos > self.buf.len() || n > self.buf.len() - self.pos {
            return Err(BlurayError::malformed("slice past end"));
        }
        let s = vstd::slice::slice_subrange(self.buf, self.pos, self.pos + n);
        self.pos += n;
        Ok(s)
    }

    /// The next byte.
    pub fn read_u8(&mut self) -> (r: Result<u8, BlurayError>)
        ensures
            final(self).buf@ == old(self).buf@,
            match r {
                Ok(v) => old(self).has(1) && v == old(self).buf@[old(self).pos as int]
                    && final(self).pos == old(self).pos + 1,
                Err(e) => !old(self).has(1) && e.is_malformed("slice past end"@) && final(self).pos
                    == old(self).pos,
            },
    {
        let s = self.slice(1)?;
        Ok(s[0])
    }

    /// The next two bytes.
    pub fn read_u16(&mut self) -> (r: Result<u16, BlurayError>)
        ensures
            final(self).buf@ == old(self).buf@,
            match r {
                Ok(v) => old(self).has(2) && v == be16(old(self).buf@, old(self).pos as int)
                    && final(self).pos == old(self).pos + 2,
                Err(e) => !old(self).has(2) && e.is_malformed("slice past end"@) && final(self).pos
                    == old(self).pos,
            },
    {
        proof {
            reveal(be16);
        }
        let s = self.slice(2)?;
        Ok(s[0] as u16 * 256 + s[1] as u16)
    }

    /// The next four bytes.
    pub fn read_u32(&mut self) -> (r: Result<u32, BlurayError>)
        ensures
            final(self).buf@ == old(self).buf@,
            match r {
                Ok(v) => old(self).has(4) && v == be32(old(self).buf@, old(self).pos as int)
                    && final(self).pos == old(self).pos + 4,
                Err(e) => !old(self).has(4) && e.is_malformed("slice past end"@) && final(self).pos
                    == old(self).pos,
            },
    {
        proof {
            reveal(be16);
            reveal(be32);
        }
        let s = self.slice(4)?;
        let hi: u16 = s[0] as u16 * 256 + s[1] as u16;
        let lo: u16 = s[2] as u16 * 256 + s[3] as u16;
        Ok(hi as u32 * 65536 + lo as u32)
    }

    /// The next eight bytes.
    pub fn read_u64(&mut self) -> (r: Result<u64, BlurayError>)
        ensures
            final(self).buf@ == old(self).buf@,
            match r {
                Ok(v) => old(self).has(8) && v == be64(old(self).buf@, old(self).pos as int)
                    && final(self).pos == old(self).pos + 8,
                Err(e) => !old(self).has(8) && e.is_malformed("slice past end"@) && final(self).pos
                    == old(self).pos,
            },
    {
        proof {
            reveal(be64);
        }
        if self.pos > self.buf.len() || 8 > self.buf.len() - self.pos {
            return Err(BlurayError::malformed("slice past end"));
        }
        let hi: u32 = self.read_u32()?;
        let lo: u32 = self.read_u32()?;
        Ok(hi as u64 * 0x1_0000_0000 + lo as u64)
    }

    /// The next three bytes as an array.
    pub fn read_array3(&mut self) -> (r: Result<[u8; 3], BlurayError>)
        ensures
            final(self).buf@ == old(self).buf@,
            match r {
                Ok(v) => old(self).has(3) && v == array3_at(old(self).buf@, old(self).pos as int)
                    && final(self).pos == old(self).pos + 3,
                Err(e) => !old(self).has(3) && e.is_malformed("slice past end"@) && final(self).pos
                    == old(self).pos,
            },
    {
        proof {
            reveal(array3_at);
        }
        let s = self.slice(3)?;
        Ok([s[0], s[1], s[2]])
    }

    /// The next four bytes as an array.
    pub fn read_array4(&mut self) -> (r: Result<[u8; 4], BlurayError>)
        ensures
            final(self).buf@ == old(self).buf@,
            match r {
                Ok(v) => old(self).has(4) && v == array4_at(old(self).buf@, old(self).pos as int)
                    && final(self).pos == old(self).pos + 4,
                Err(e) => !old(self).has(4) && e.is_malformed("slice past end"@) && final(self).pos
                    == old(self).pos,
            },
    {
        proof {
            reveal(array4_at);
        }
        let s = self.slice(4)?;
        Ok([s[0], s[1], s[2], s[3]])
    }
}

// ---------------------------------------------------------------------
// Clip file names
// ---------------------------------------------------------------------

/// Five ASCII digits: the stem of a clip's file names.
pub open spec fn is_clip_stem(s: Seq<char>) -> bool {
    s.len() == 5 && forall|i: int| 0 <= i < 5 ==> '0' <= #[trigger] s[i] <= '9'
}

/// `b"M2TS"`, the codec identifier of a standard clip.
pub open spec fn is_m2ts(codec_id: [u8; 4]) -> bool {
    codec_id[0] == 0x4D && codec_id[1] == 0x32 && codec_id[2] == 0x54 && codec_id[3] == 0x53
}

fn clip_stem(stem: &str) -> (r: bool)
    ensures
        r == is_clip_stem(stem@),
{
    if stem.unicode_len() != 5 {
        return false;
    }
    let mut i: usize = 0;
    while i < 5
        invariant
            i <= 5,
            stem@.len() == 5,
            forall|k: int| 0 <= k < i ==> '0' <= #[trigger] stem@[k] <= '9',
        decreases 5 - i,
    {
        let c: char = stem.get_char(i);
        if c < '0' || c > '9' {
            return false;
        }
        i += 1;
    }
    true
}

/// Text in double quotes, with escapes. Named after what the `Debug`
/// formatting of std writes for text.
pub uninterp spec fn quoted(text: Seq<char>) -> Seq<char>;

/// Text in double quotes.
///
/// Calls the `Debug` formatting of std through `format!`, whose result depends
/// on the text alone. Which characters are escaped, and how, is not said.
#[verifier::external_body]
fn quote(text: &str) -> (r: String)
    ensures
        r@ == quoted(text@),
{
    format!("{:?}", text)
}

/// What is said of a clip name that is none.
pub open spec fn bad_stem_text(stem: Seq<char>) -> Seq<char> {
    "clip name "@ + quoted(stem) + " is not 5 digits"@
}

fn bad_stem(stem: &str) -> (e: BlurayError)
    ensures
        e.is_malformed(bad_stem_text(stem@)),
{
    let mut text = "clip name ".to_owned();
    text.append(quote(stem).as_str());
    text.append(" is not 5 digits");
    BlurayError::Malformed(text)
}

/// What is said of a codec that is not handled.
pub open spec fn bad_codec_text(codec_id: [u8; 4]) -> Seq<char> {
    "non-M2TS clip codec "@ + quoted(
        if valid_utf8(codec_id@) {
            decode_utf8(codec_id@)
        } else {
            "???"@
        },
    )
}

fn bad_codec(codec_id: &[u8; 4]) -> (e: BlurayError)
    ensures
        e is Unsupported,
        e->Unsupported_0@ == bad_codec_text(*codec_id),
{
    let name = match utf8_text(codec_id.as_slice()) {
        Some(t) => t,
        None => "???".to_owned(),
    };
    let mut text = "non-M2TS clip codec ".to_owned();
    text.append(quote(name.as_str()).as_str());
    BlurayError::Unsupported(text)
}

/// The BDMV path of a clip's information file: `"00001"` becomes
/// `"BDMV/CLIPINF/00001.clpi"`. `codec_id` is the clip's four-byte codec
/// identifier; only `b"M2TS"` is supported.
pub fn clpi_path(stem: &str, codec_id: &[u8; 4]) -> (r: Result<String, BlurayError>)
    ensures
        match r {
            Ok(p) => is_clip_stem(stem@) && is_m2ts(*codec_id) && p@ == "BDMV/CLIPINF/"@ + stem@
                + ".clpi"@,
            Err(e) => if is_clip_stem(stem@) {
                !is_m2ts(*codec_id) && e is Unsupported && e->Unsupported_0@ == bad_codec_text(
                    *codec_id,
                )
            } else {
                e.is_malformed(bad_stem_text(stem@))
            },
        },
{
    if !clip_stem(stem) {
        return Err(bad_stem(stem));
    }
    if !(codec_id[0] == 0x4D && codec_id[1] == 0x32 && codec_id[2] == 0x54 && codec_id[3] == 0x53) {
        return Err(bad_codec(codec_id));
    }
    let mut p = "BDMV/CLIPINF/".to_owned();
    p.append(stem);
    p.append(".clpi");
    Ok(p)
}

/// Like [`clpi_path`], for the stream file under `STREAM/`.
pub fn m2ts_path(stem: &str) -> (r: Result<String, BlurayError>)
    ensures
        match r {
            Ok(p) => is_clip_stem(stem@) && p@ == "BDMV/STREAM/"@ + stem@ + ".m2ts"@,
            Err(e) => !is_clip_stem(stem@) && e.is_malformed(bad_stem_text(stem@)),
        },
{
    if !clip_stem(stem) {
        return Err(bad_stem(stem));
    }
    let mut p = "BDMV/STREAM/".to_owned();
    p.append(stem);
    p.append(".m2ts");
    Ok(p)
}

/// The stem of a clip is five digits; a clip of the usual kind is `M2TS`.
pub proof fn lemma_clip_names(s: Seq<char>, codec: [u8; 4], i: int)
    ensures
        is_clip_stem(s) ==> s.len() == 5 && (0 <= i < 5 ==> '0' <= s[i] <= '9'),
        s.len() == 5 && '0' <= s[0] <= '9' && '0' <= s[1] <= '9' && '0' <= s[2] <= '9' && '0'
            <= s[3] <= '9' && '0' <= s[4] <= '9' ==> is_clip_stem(s),
        is_m2ts(codec) <==> codec@[0] == 'M' as int && codec@[1] == '2' as int && codec@[2]
            == 'T' as int && codec@[3] == 'S' as int,
{
}

} // verus!
