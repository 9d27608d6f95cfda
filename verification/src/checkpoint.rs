//! The checkpoint codec: the shared network state as bytes, and back.
//!
//! The encoding is columnar and versioned: a version tag, then each field
//! of the state as length-prefixed primitive columns (64-bit little-endian
//! numbers, length-prefixed byte strings, optional byte strings).  Decoding
//! a byte string produced by the encoder restores a state equal, image for
//! image, to the one saved (see [`lemma_checkpoint_roundtrip`]).  The
//! embedding process writes the bytes to durable storage with an atomic
//! replace; a failure there never touches the state.

use vstd::prelude::*;
use crate::text::Text;

verus! {

/// The version tag of the current schema.
pub const STATE_VERSION_1: u64 = 1;

/// The bytes of one 64-bit number, least significant byte first.
pub open spec fn enc_u64(v: u64) -> Seq<u8> {
    seq![
        (v % 256) as u8,
        ((v / 256) % 256) as u8,
        ((v / 0x10000) % 256) as u8,
        ((v / 0x1000000) % 256) as u8,
        ((v / 0x100000000) % 256) as u8,
        ((v / 0x10000000000) % 256) as u8,
        ((v / 0x1000000000000) % 256) as u8,
        ((v / 0x100000000000000) % 256) as u8,
    ]
}

/// The number held by eight bytes, least significant first.
pub open spec fn dec_u64_val(b: Seq<u8>, pos: int) -> int {
    b[pos] + b[pos + 1] * 256 + b[pos + 2] * 0x10000 + b[pos + 3] * 0x1000000 + b[pos + 4]
        * 0x100000000 + b[pos + 5] * 0x10000000000 + b[pos + 6] * 0x1000000000000 + b[pos + 7]
        * 0x100000000000000
}

/// Decode of a 64-bit number at `pos`.
pub open spec fn dec_u64(b: Seq<u8>, pos: int) -> Option<(u64, int)> {
    if 0 <= pos && pos + 8 <= b.len() {
        Some((dec_u64_val(b, pos) as u64, pos + 8))
    } else {
        None
    }
}

proof fn lemma_u64_bytes(v: u64)
    ensures
        (v % 256) + ((v / 256) % 256) * 256 + ((v / 0x10000) % 256) * 0x10000 + ((v / 0x1000000)
            % 256) * 0x1000000 + ((v / 0x100000000) % 256) * 0x100000000 + ((v / 0x10000000000)
            % 256) * 0x10000000000 + ((v / 0x1000000000000) % 256) * 0x1000000000000 + ((v
            / 0x100000000000000) % 256) * 0x100000000000000 == v,
{
    assert((v % 256) + ((v / 256) % 256) * 256 + ((v / 0x10000) % 256) * 0x10000 + ((v / 0x1000000)
        % 256) * 0x1000000 + ((v / 0x100000000) % 256) * 0x100000000 + ((v / 0x10000000000) % 256)
        * 0x10000000000 + ((v / 0x1000000000000) % 256) * 0x1000000000000 + ((v
        / 0x100000000000000) % 256) * 0x100000000000000 == v) by (bit_vector);
}

/// Decoding the encoding of a number gives it back.
pub proof fn rt_u64(v: u64, b: Seq<u8>, pos: int)
    requires
        0 <= pos,
        pos + 8 <= b.len(),
        b.subrange(pos, pos + 8) == enc_u64(v),
    ensures
        dec_u64(b, pos) == Some((v, pos + 8)),
{
    assert(b[pos] == enc_u64(v)[0]);
    assert(b[pos + 1] == enc_u64(v)[1]);
    assert(b[pos + 2] == enc_u64(v)[2]);
    assert(b[pos + 3] == enc_u64(v)[3]);
    assert(b[pos + 4] == enc_u64(v)[4]);
    assert(b[pos + 5] == enc_u64(v)[5]);
    assert(b[pos + 6] == enc_u64(v)[6]);
    assert(b[pos + 7] == enc_u64(v)[7]);
    lemma_u64_bytes(v);
}

/// Append the encoding of a number.
pub fn write_u64(buf: &mut Vec<u8>, v: u64)
    ensures
        final(buf)@ == old(buf)@ + enc_u64(v),
{
    buf.push((v % 256) as u8);
    buf.push(((v / 256) % 256) as u8);
    buf.push(((v / 0x10000) % 256) as u8);
    buf.push(((v / 0x1000000) % 256) as u8);
    buf.push(((v / 0x100000000) % 256) as u8);
    buf.push(((v / 0x10000000000) % 256) as u8);
    buf.push(((v / 0x1000000000000) % 256) as u8);
    buf.push(((v / 0x100000000000000) % 256) as u8);
    proof {
        assert(final(buf)@ =~= old(buf)@ + enc_u64(v));
    }
}

/// Read a number.
pub fn read_u64(buf: &Vec<u8>, pos: usize) -> (r: Option<(u64, usize)>)
    ensures
        match r {
            Some(t) => dec_u64(buf@, pos as int) == Some((t.0, t.1 as int)) && t.1 <= buf@.len(),
            None => dec_u64(buf@, pos as int) is None,
        },
{
    if pos >= buf.len() || buf.len() - pos < 8 {
        return None;
    }
    let v: u64 = (buf[pos] as u64) + (buf[pos + 1] as u64) * 256 + (buf[pos + 2] as u64) * 0x10000
        + (buf[pos + 3] as u64) * 0x1000000 + (buf[pos + 4] as u64) * 0x100000000 + (buf[pos
        + 5] as u64) * 0x10000000000 + (buf[pos + 6] as u64) * 0x1000000000000 + (buf[pos
        + 7] as u64) * 0x100000000000000;
    proof {
        assert(dec_u64_val(buf@, pos as int) <= 0xffff_ffff_ffff_ffff);
        assert(v == dec_u64_val(buf@, pos as int));
    }
    Some((v, pos + 8))
}

/// The bytes of a list of numbers: the count, then each number.
pub open spec fn enc_u64s(s: Seq<u64>) -> Seq<u8> {
    enc_u64(s.len() as u64) + enc_u64s_items(s)
}

/// The bytes of the numbers themselves.
pub open spec fn enc_u64s_items(s: Seq<u64>) -> Seq<u8>
    decreases s.len(),
{
    if s.len() == 0 {
        Seq::empty()
    } else {
        enc_u64(s[0]) + enc_u64s_items(s.skip(1))
    }
}

/// Decode of `n` numbers at `pos`.
pub open spec fn dec_u64s_items(b: Seq<u8>, pos: int, n: nat) -> Option<(Seq<u64>, int)>
    decreases n,
{
    if n == 0 {
        Some((Seq::empty(), pos))
    } else {
        match dec_u64(b, pos) {
            None => None,
            Some((v, p)) => match dec_u64s_items(b, p, (n - 1) as nat) {
                None => None,
                Some((s, p2)) => Some((seq![v] + s, p2)),
            },
        }
    }
}

/// Decode of a number list at `pos`.
pub open spec fn dec_u64s(b: Seq<u8>, pos: int) -> Option<(Seq<u64>, int)> {
    match dec_u64(b, pos) {
        None => None,
        Some((n, p)) => dec_u64s_items(b, p, n as nat),
    }
}

proof fn lemma_enc_u64s_items_snoc(s: Seq<u64>, v: u64)
    ensures
        enc_u64s_items(s.push(v)) == enc_u64s_items(s) + enc_u64(v),
    decreases s.len(),
{
    if s.len() == 0 {
        assert(s.push(v)[0] == v);
        assert(s.push(v).skip(1) =~= Seq::<u64>::empty());
        assert(enc_u64s_items(Seq::<u64>::empty()) =~= Seq::<u8>::empty());
        assert(enc_u64s_items(s.push(v)) == enc_u64(v) + enc_u64s_items(s.push(v).skip(1)));
        assert(enc_u64s_items(s.push(v)) =~= enc_u64s_items(s) + enc_u64(v));
    } else {
        assert(s.push(v)[0] == s[0]);
        assert(s.push(v).skip(1) =~= s.skip(1).push(v));
        lemma_enc_u64s_items_snoc(s.skip(1), v);
        assert(enc_u64s_items(s.push(v)) =~= enc_u64s_items(s) + enc_u64(v));
    }
}

proof fn rt_u64s_items(s: Seq<u64>, b: Seq<u8>, pos: int)
    requires
        0 <= pos,
        pos + enc_u64s_items(s).len() <= b.len(),
        b.subrange(pos, pos + enc_u64s_items(s).len()) == enc_u64s_items(s),
    ensures
        dec_u64s_items(b, pos, s.len()) == Some((s, pos + enc_u64s_items(s).len())),
    decreases s.len(),
{
    if s.len() == 0 {
        assert(dec_u64s_items(b, pos, 0) == Some((Seq::<u64>::empty(), pos)));
        assert(s =~= Seq::<u64>::empty());
    } else {
        let e0 = enc_u64(s[0]);
        let rest = enc_u64s_items(s.skip(1));
        let total = enc_u64s_items(s).len() as int;
        let whole = b.subrange(pos, pos + total);
        assert(enc_u64s_items(s) == e0 + rest);
        assert(b.subrange(pos, pos + 8) =~= whole.subrange(0, 8));
        assert(whole.subrange(0, 8) =~= e0);
        rt_u64(s[0], b, pos);
        assert(b.subrange(pos + 8, pos + 8 + rest.len()) =~= whole.subrange(8, total));
        assert(whole.subrange(8, total) =~= rest);
        rt_u64s_items(s.skip(1), b, pos + 8);
        assert(seq![s[0]] + s.skip(1) =~= s);
    }
}

/// Decoding the encoding of a number list gives it back.
pub proof fn rt_u64s(s: Seq<u64>, b: Seq<u8>, pos: int)
    requires
        0 <= pos,
        s.len() <= u64::MAX,
        pos + enc_u64s(s).len() <= b.len(),
        b.subrange(pos, pos + enc_u64s(s).len()) == enc_u64s(s),
    ensures
        dec_u64s(b, pos) == Some((s, pos + enc_u64s(s).len())),
{
    let hd = enc_u64(s.len() as u64);
    let items = enc_u64s_items(s);
    let total = enc_u64s(s).len() as int;
    let whole = b.subrange(pos, pos + total);
    assert(enc_u64s(s) == hd + items);
    assert(b.subrange(pos, pos + 8) =~= whole.subrange(0, 8));
    assert(whole.subrange(0, 8) =~= hd);
    rt_u64(s.len() as u64, b, pos);
    assert(b.subrange(pos + 8, pos + 8 + items.len()) =~= whole.subrange(8, total));
    assert(whole.subrange(8, total) =~= items);
    rt_u64s_items(s, b, pos + 8);
}

/// Append the encoding of a number list.
pub fn write_u64s(buf: &mut Vec<u8>, s: &Vec<u64>)
    ensures
        final(buf)@ == old(buf)@ + enc_u64s(s@),
{
    write_u64(buf, s.len() as u64);
    let ghost base = old(buf)@ + enc_u64(s@.len() as u64);
    let mut i: usize = 0;
    proof {
        assert(enc_u64s_items(s@.take(0)) =~= Seq::<u8>::empty());
        assert(buf@ =~= base + enc_u64s_items(s@.take(0)));
    }
    while i < s.len()
        invariant
            i <= s@.len(),
            buf@ == base + enc_u64s_items(s@.take(i as int)),
            base == old(buf)@ + enc_u64(s@.len() as u64),
        decreases s@.len() - i,
    {
        write_u64(buf, s[i]);
        proof {
            assert(s@.take(i as int + 1) =~= s@.take(i as int).push(s@[i as int]));
            lemma_enc_u64s_items_snoc(s@.take(i as int), s@[i as int]);
            assert(buf@ =~= base + enc_u64s_items(s@.take(i as int + 1)));
        }
        i = i + 1;
    }
    proof {
        assert(s@.take(s@.len() as int) =~= s@);
        assert(buf@ =~= old(buf)@ + enc_u64s(s@));
    }
}

/// Read a number list.
pub fn read_u64s(buf: &Vec<u8>, pos: usize) -> (r: Option<(Vec<u64>, usize)>)
    ensures
        match r {
            Some(t) => dec_u64s(buf@, pos as int) == Some((t.0@, t.1 as int)) && t.1 <= buf@.len(),
            None => dec_u64s(buf@, pos as int) is None,
        },
{
    let (n, p0) = match read_u64(buf, pos) {
        None => {
            return None;
        },
        Some(t) => t,
    };
    let mut out: Vec<u64> = Vec::new();
    let mut cur: usize = p0;
    let mut done: u64 = 0;
    proof {
        assert(out@ =~= Seq::<u64>::empty());
        if dec_u64s_items(buf@, p0 as int, n as nat) is Some {
            assert(out@ + dec_u64s_items(buf@, p0 as int, n as nat)->Some_0.0
                =~= dec_u64s_items(buf@, p0 as int, n as nat)->Some_0.0);
        }
    }
    while done < n
        invariant
            dec_u64(buf@, pos as int) == Some((n, p0 as int)),
            cur <= buf@.len(),
            done <= n,
            out@.len() == done,
            dec_u64s_items(buf@, p0 as int, n as nat) == (match dec_u64s_items(
                buf@,
                cur as int,
                (n - done) as nat,
            ) {
                None => None::<(Seq<u64>, int)>,
                Some((s2, p2)) => Some((out@ + s2, p2)),
            }),
        decreases n - done,
    {
        match read_u64(buf, cur) {
            None => {
                proof {
                    assert(dec_u64s_items(buf@, cur as int, (n - done) as nat) is None);
                    assert(dec_u64s_items(buf@, p0 as int, n as nat) is None);
                }
                return None;
            },
            Some((v, p)) => {
                let ghost prev = out@;
                out.push(v);
                cur = p;
                done = done + 1;
                proof {
                    assert(forall|s2: Seq<u64>| prev + (seq![v] + s2) =~= out@ + s2);
                }
            },
        }
    }
    proof {
        assert(dec_u64s_items(buf@, cur as int, 0) == Some((Seq::<u64>::empty(), cur as int)));
        assert(out@ + Seq::<u64>::empty() =~= out@);
    }
    Some((out, cur))
}


/// The bytes of one byte string: its length, then its bytes.
pub open spec fn enc_text(t: Seq<u8>) -> Seq<u8> {
    enc_u64(t.len() as u64) + t
}

/// Decode of a byte string at `pos`.
pub open spec fn dec_text(b: Seq<u8>, pos: int) -> Option<(Seq<u8>, int)> {
    match dec_u64(b, pos) {
        None => None,
        Some((n, p)) => if p + n <= b.len() {
            Some((b.subrange(p, p + n), p + n))
        } else {
            None
        },
    }
}

/// Decoding the encoding of a byte string gives it back.
pub proof fn rt_text(t: Seq<u8>, b: Seq<u8>, pos: int)
    requires
        0 <= pos,
        t.len() <= u64::MAX,
        pos + enc_text(t).len() <= b.len(),
        b.subrange(pos, pos + enc_text(t).len()) == enc_text(t),
    ensures
        dec_text(b, pos) == Some((t, pos + enc_text(t).len())),
{
    let hd = enc_u64(t.len() as u64);
    let total = enc_text(t).len() as int;
    let whole = b.subrange(pos, pos + total);
    assert(enc_text(t) == hd + t);
    assert(b.subrange(pos, pos + 8) =~= whole.subrange(0, 8));
    assert(whole.subrange(0, 8) =~= hd);
    rt_u64(t.len() as u64, b, pos);
    assert(b.subrange(pos + 8, pos + 8 + t.len()) =~= whole.subrange(8, total));
    assert(whole.subrange(8, total) =~= t);
}

/// Append the encoding of a byte string.
pub fn write_text(buf: &mut Vec<u8>, t: &Text)
    ensures
        final(buf)@ == old(buf)@ + enc_text(t@),
{
    write_u64(buf, t.bytes.len() as u64);
    let mut i: usize = 0;
    let ghost base = old(buf)@ + enc_u64(t@.len() as u64);
    while i < t.bytes.len()
        invariant
            i <= t@.len(),
            buf@ == base + t@.take(i as int),
        decreases t@.len() - i,
    {
        buf.push(t.bytes[i]);
        proof {
            assert(buf@ =~= base + t@.take(i as int + 1));
        }
        i = i + 1;
    }
    proof {
        assert(t@.take(t@.len() as int) =~= t@);
        assert(buf@ =~= old(buf)@ + enc_text(t@));
    }
}

/// Read a byte string.
pub fn read_text(buf: &Vec<u8>, pos: usize) -> (r: Option<(Text, usize)>)
    ensures
        match r {
            Some(t) => dec_text(buf@, pos as int) == Some((t.0@, t.1 as int)) && t.1 <= buf@.len(),
            None => dec_text(buf@, pos as int) is None,
        },
{
    let (n, p) = match read_u64(buf, pos) {
        None => {
            return None;
        },
        Some(t) => t,
    };
    if n > buf.len() as u64 - p as u64 {
        return None;
    }
    let count = n as usize;
    let blen = buf.len();
    let mut bytes: Vec<u8> = Vec::new();
    let mut i: usize = 0;
    while i < count
        invariant
            p + count <= blen,
            blen == buf@.len(),
            i <= count,
            bytes@ == buf@.subrange(p as int, p as int + i as int),
        decreases count - i,
    {
        bytes.push(buf[p + i]);
        proof {
            assert(bytes@ =~= buf@.subrange(p as int, p as int + i as int + 1));
        }
        i = i + 1;
    }
    Some((Text { bytes }, p + count))
}

/// The bytes of a list of byte strings: the count, then each string.
pub open spec fn enc_texts(s: Seq<Seq<u8>>) -> Seq<u8> {
    enc_u64(s.len() as u64) + enc_texts_items(s)
}

/// The bytes of the strings themselves.
pub open spec fn enc_texts_items(s: Seq<Seq<u8>>) -> Seq<u8>
    decreases s.len(),
{
    if s.len() == 0 {
        Seq::empty()
    } else {
        enc_text(s[0]) + enc_texts_items(s.skip(1))
    }
}

/// Decode of `n` byte strings at `pos`.
pub open spec fn dec_texts_items(b: Seq<u8>, pos: int, n: nat) -> Option<(Seq<Seq<u8>>, int)>
    decreases n,
{
    if n == 0 {
        Some((Seq::empty(), pos))
    } else {
        match dec_text(b, pos) {
            None => None,
            Some((v, p)) => match dec_texts_items(b, p, (n - 1) as nat) {
                None => None,
                Some((s, p2)) => Some((seq![v] + s, p2)),
            },
        }
    }
}

/// Decode of a byte-string list at `pos`.
pub open spec fn dec_texts(b: Seq<u8>, pos: int) -> Option<(Seq<Seq<u8>>, int)> {
    match dec_u64(b, pos) {
        None => None,
        Some((n, p)) => dec_texts_items(b, p, n as nat),
    }
}

proof fn lemma_enc_texts_items_snoc(s: Seq<Seq<u8>>, v: Seq<u8>)
    ensures
        enc_texts_items(s.push(v)) == enc_texts_items(s) + enc_text(v),
    decreases s.len(),
{
    if s.len() == 0 {
        assert(s.push(v)[0] == v);
        assert(s.push(v).skip(1) =~= Seq::<Seq<u8>>::empty());
        assert(enc_texts_items(Seq::<Seq<u8>>::empty()) =~= Seq::<u8>::empty());
        assert(enc_texts_items(s.push(v)) == enc_text(v) + enc_texts_items(s.push(v).skip(1)));
        assert(enc_texts_items(s.push(v)) =~= enc_texts_items(s) + enc_text(v));
    } else {
        assert(s.push(v)[0] == s[0]);
        assert(s.push(v).skip(1) =~= s.skip(1).push(v));
        lemma_enc_texts_items_snoc(s.skip(1), v);
        assert(enc_texts_items(s.push(v)) =~= enc_texts_items(s) + enc_text(v));
    }
}

/// Every byte string in the list fits a 64-bit length.
pub open spec fn texts_bounded(s: Seq<Seq<u8>>) -> bool {
    forall|i: int| 0 <= i < s.len() ==> (#[trigger] s[i]).len() <= u64::MAX
}

proof fn rt_texts_items(s: Seq<Seq<u8>>, b: Seq<u8>, pos: int)
    requires
        0 <= pos,
        texts_bounded(s),
        pos + enc_texts_items(s).len() <= b.len(),
        b.subrange(pos, pos + enc_texts_items(s).len()) == enc_texts_items(s),
    ensures
        dec_texts_items(b, pos, s.len()) == Some((s, pos + enc_texts_items(s).len())),
    decreases s.len(),
{
    if s.len() == 0 {
        assert(dec_texts_items(b, pos, 0) == Some((Seq::<Seq<u8>>::empty(), pos)));
        assert(s =~= Seq::<Seq<u8>>::empty());
    } else {
        let e0 = enc_text(s[0]);
        let rest = enc_texts_items(s.skip(1));
        let total = enc_texts_items(s).len() as int;
        let whole = b.subrange(pos, pos + total);
        assert(enc_texts_items(s) == e0 + rest);
        assert(b.subrange(pos, pos + e0.len()) =~= whole.subrange(0, e0.len() as int));
        assert(whole.subrange(0, e0.len() as int) =~= e0);
        rt_text(s[0], b, pos);
        assert(b.subrange(pos + e0.len(), pos + total) =~= whole.subrange(e0.len() as int, total));
        assert(whole.subrange(e0.len() as int, total) =~= rest);
        assert(texts_bounded(s.skip(1))) by {
            assert(forall|t: int| 0 <= t < s.skip(1).len() ==> s.skip(1)[t] == s[t + 1]);
        }
        rt_texts_items(s.skip(1), b, pos + e0.len());
        assert(seq![s[0]] + s.skip(1) =~= s);
    }
}

/// Decoding the encoding of a byte-string list gives it back.
pub proof fn rt_texts(s: Seq<Seq<u8>>, b: Seq<u8>, pos: int)
    requires
        0 <= pos,
        s.len() <= u64::MAX,
        texts_bounded(s),
        pos + enc_texts(s).len() <= b.len(),
        b.subrange(pos, pos + enc_texts(s).len()) == enc_texts(s),
    ensures
        dec_texts(b, pos) == Some((s, pos + enc_texts(s).len())),
{
    let hd = enc_u64(s.len() as u64);
    let items = enc_texts_items(s);
    let total = enc_texts(s).len() as int;
    let whole = b.subrange(pos, pos + total);
    assert(enc_texts(s) == hd + items);
    assert(b.subrange(pos, pos + 8) =~= whole.subrange(0, 8));
    assert(whole.subrange(0, 8) =~= hd);
    rt_u64(s.len() as u64, b, pos);
    assert(b.subrange(pos + 8, pos + 8 + items.len()) =~= whole.subrange(8, total));
    assert(whole.subrange(8, total) =~= items);
    rt_texts_items(s, b, pos + 8);
}

/// Append the encoding of a byte-string list.
pub fn write_texts(buf: &mut Vec<u8>, s: &Vec<Text>)
    ensures
        final(buf)@ == old(buf)@ + enc_texts(s@.map_values(|t: Text| t@)),
{
    let ghost views = s@.map_values(|t: Text| t@);
    write_u64(buf, s.len() as u64);
    let ghost base = old(buf)@ + enc_u64(views.len() as u64);
    let mut i: usize = 0;
    proof {
        assert(enc_texts_items(views.take(0)) =~= Seq::<u8>::empty());
        assert(buf@ =~= base + enc_texts_items(views.take(0)));
    }
    while i < s.len()
        invariant
            i <= s@.len(),
            views == s@.map_values(|t: Text| t@),
            buf@ == base + enc_texts_items(views.take(i as int)),
            base == old(buf)@ + enc_u64(views.len() as u64),
        decreases s@.len() - i,
    {
        write_text(buf, &s[i]);
        proof {
            assert(views.take(i as int + 1) =~= views.take(i as int).push(views[i as int]));
            lemma_enc_texts_items_snoc(views.take(i as int), views[i as int]);
            assert(buf@ =~= base + enc_texts_items(views.take(i as int + 1)));
        }
        i = i + 1;
    }
    proof {
        assert(views.take(views.len() as int) =~= views);
        assert(buf@ =~= old(buf)@ + enc_texts(views));
    }
}

/// Read a byte-string list.
pub fn read_texts(buf: &Vec<u8>, pos: usize) -> (r: Option<(Vec<Text>, usize)>)
    ensures
        match r {
            Some(t) => dec_texts(buf@, pos as int) == Some(
                (t.0@.map_values(|x: Text| x@), t.1 as int),
            ) && t.1 <= buf@.len(),
            None => dec_texts(buf@, pos as int) is None,
        },
{
    let (n, p0) = match read_u64(buf, pos) {
        None => {
            return None;
        },
        Some(t) => t,
    };
    let mut out: Vec<Text> = Vec::new();
    let mut cur: usize = p0;
    let mut done: u64 = 0;
    proof {
        assert(out@.map_values(|x: Text| x@) =~= Seq::<Seq<u8>>::empty());
        if dec_texts_items(buf@, p0 as int, n as nat) is Some {
            assert(out@.map_values(|x: Text| x@) + dec_texts_items(
                buf@,
                p0 as int,
                n as nat,
            )->Some_0.0 =~= dec_texts_items(buf@, p0 as int, n as nat)->Some_0.0);
        }
    }
    while done < n
        invariant
            dec_u64(buf@, pos as int) == Some((n, p0 as int)),
            cur <= buf@.len(),
            done <= n,
            out@.len() == done,
            dec_texts_items(buf@, p0 as int, n as nat) == (match dec_texts_items(
                buf@,
                cur as int,
                (n - done) as nat,
            ) {
                None => None::<(Seq<Seq<u8>>, int)>,
                Some((s2, p2)) => Some((out@.map_values(|x: Text| x@) + s2, p2)),
            }),
        decreases n - done,
    {
        match read_text(buf, cur) {
            None => {
                proof {
                    assert(dec_texts_items(buf@, cur as int, (n - done) as nat) is None);
                    assert(dec_texts_items(buf@, p0 as int, n as nat) is None);
                }
                return None;
            },
            Some((v, p)) => {
                let ghost prev = out@.map_values(|x: Text| x@);
                let ghost vv = v@;
                out.push(v);
                cur = p;
                done = done + 1;
                proof {
                    assert(out@.map_values(|x: Text| x@) =~= prev.push(vv));
                    assert(forall|s2: Seq<Seq<u8>>|
                        prev + (seq![vv] + s2) =~= prev.push(vv) + s2);
                }
            },
        }
    }
    proof {
        assert(dec_texts_items(buf@, cur as int, 0) == Some((Seq::<Seq<u8>>::empty(), cur as int)));
        assert(out@.map_values(|x: Text| x@) + Seq::<Seq<u8>>::empty() =~= out@.map_values(
            |x: Text| x@,
        ));
    }
    Some((out, cur))
}

/// Splitting a known two-part region of a buffer.
proof fn lemma_split_head(b: Seq<u8>, pos: int, h: Seq<u8>, t: Seq<u8>)
    requires
        0 <= pos,
        pos + h.len() + t.len() <= b.len(),
        b.subrange(pos, pos + h.len() + t.len()) == h + t,
    ensures
        b.subrange(pos, pos + h.len()) == h,
        b.subrange(pos + h.len(), pos + h.len() + t.len()) == t,
{
    let whole = b.subrange(pos, pos + h.len() + t.len());
    assert(b.subrange(pos, pos + h.len()) =~= h) by {
        assert forall|j: int| 0 <= j < h.len() implies b.subrange(pos, pos + h.len())[j] == h[j] by {
            assert(whole[j] == (h + t)[j]);
        }
    }
    assert(b.subrange(pos + h.len(), pos + h.len() + t.len()) =~= t) by {
        assert forall|j: int|
            0 <= j < t.len() implies b.subrange(pos + h.len(), pos + h.len() + t.len())[j] == t[j] by {
            assert(whole[h.len() + j] == (h + t)[h.len() + j]);
        }
    }
}

/// The `keys` column of a `nodemap` section.
pub open spec fn arg_nodemap_keys(s: Seq<(Seq<u8>, crate::state::NodeAddrV)>) -> Seq<Seq<u8>> {
    s.map_values(|e: (Seq<u8>, crate::state::NodeAddrV)| e.0)
}

/// The `ids` column of a `nodemap` section.
pub open spec fn arg_nodemap_ids(s: Seq<(Seq<u8>, crate::state::NodeAddrV)>) -> Seq<Seq<u8>> {
    s.map_values(|e: (Seq<u8>, crate::state::NodeAddrV)| e.1.id)
}

/// The `ips` column of a `nodemap` section.
pub open spec fn arg_nodemap_ips(s: Seq<(Seq<u8>, crate::state::NodeAddrV)>) -> Seq<Seq<u8>> {
    s.map_values(|e: (Seq<u8>, crate::state::NodeAddrV)| e.1.ip)
}

/// The `ports` column of a `nodemap` section.
pub open spec fn arg_nodemap_ports(s: Seq<(Seq<u8>, crate::state::NodeAddrV)>) -> Seq<u64> {
    s.map_values(|e: (Seq<u8>, crate::state::NodeAddrV)| e.1.port)
}

/// A `nodemap` section as bytes: its columns in order.
#[verifier::opaque]
pub open spec fn enc_nodemap(s: Seq<(Seq<u8>, crate::state::NodeAddrV)>) -> Seq<u8> {
    enc_texts(arg_nodemap_keys(s)) + (enc_texts(arg_nodemap_ids(s)) + (enc_texts(arg_nodemap_ips(s)) + (enc_u64s(arg_nodemap_ports(s)))))
}

/// Machine bounds of a `nodemap` section.
pub open spec fn bounded_nodemap(s: Seq<(Seq<u8>, crate::state::NodeAddrV)>) -> bool {
    &&& s.len() <= u64::MAX
    &&& texts_bounded(arg_nodemap_keys(s))
    &&& texts_bounded(arg_nodemap_ids(s))
    &&& texts_bounded(arg_nodemap_ips(s))
}

/// Decode of a `nodemap` section at `pos`.
#[verifier::opaque]
pub open spec fn dec_nodemap(b: Seq<u8>, pos: int) -> Option<(Seq<(Seq<u8>, crate::state::NodeAddrV)>, int)> {
    match dec_texts(b, pos) {
        None => None,
        Some((c_keys, p_keys)) => {
            match dec_texts(b, p_keys) {
                None => None,
                Some((c_ids, p_ids)) => {
                    match dec_texts(b, p_ids) {
                        None => None,
                        Some((c_ips, p_ips)) => {
                            match dec_u64s(b, p_ips) {
                                None => None,
                                Some((c_ports, p_ports)) => {
                                    if c_ids.len() == c_keys.len()
        && c_ips.len() == c_keys.len()
        && c_ports.len() == c_keys.len() {
                                        Some((Seq::new(c_keys.len(), |i: int| (c_keys[i], crate::state::NodeAddrV { id: c_ids[i], ip: c_ips[i], port: c_ports[i] })), p_ports))
                                    } else {
                                        None
                                    }
                                },
                            }
                        },
                    }
                },
            }
        },
    }
}

/// Decoding the encoding of a `nodemap` section gives it back.
#[verifier::rlimit(100)]
#[verifier::spinoff_prover]
pub proof fn rt_nodemap(s: Seq<(Seq<u8>, crate::state::NodeAddrV)>, b: Seq<u8>, pos: int)
    requires
        0 <= pos,
        bounded_nodemap(s),
        pos + enc_nodemap(s).len() <= b.len(),
        b.subrange(pos, pos + enc_nodemap(s).len()) == enc_nodemap(s),
    ensures
        dec_nodemap(b, pos) == Some((s, pos + enc_nodemap(s).len())),
{
    reveal(dec_nodemap);
    reveal(enc_nodemap);
    let c_keys = enc_texts(arg_nodemap_keys(s));
    let c_ids = enc_texts(arg_nodemap_ids(s));
    let c_ips = enc_texts(arg_nodemap_ips(s));
    let c_ports = enc_u64s(arg_nodemap_ports(s));
    let t_ports = c_ports;
    let t_ips = c_ips + t_ports;
    let t_ids = c_ids + t_ips;
    let t_keys = c_keys + t_ids;
    assert(enc_nodemap(s) == t_keys);
    lemma_split_head(b, pos, c_keys, t_ids);
    rt_texts(arg_nodemap_keys(s), b, pos);
    let p_keys = pos + c_keys.len() as int;
    lemma_split_head(b, p_keys, c_ids, t_ips);
    rt_texts(arg_nodemap_ids(s), b, p_keys);
    let p_ids = p_keys + c_ids.len() as int;
    lemma_split_head(b, p_ids, c_ips, t_ports);
    rt_texts(arg_nodemap_ips(s), b, p_ids);
    let p_ips = p_ids + c_ips.len() as int;
    rt_u64s(arg_nodemap_ports(s), b, p_ips);
    let p_ports = p_ips + c_ports.len() as int;
    assert(Seq::new(arg_nodemap_keys(s).len(), |i: int| (arg_nodemap_keys(s)[i], crate::state::NodeAddrV { id: arg_nodemap_ids(s)[i], ip: arg_nodemap_ips(s)[i], port: arg_nodemap_ports(s)[i] })) =~= s);
}

/// The `keys` column of a `ipasnmap` section.
pub open spec fn arg_ipasnmap_keys(s: Seq<(Seq<u8>, crate::state::IpAsnV)>) -> Seq<Seq<u8>> {
    s.map_values(|e: (Seq<u8>, crate::state::IpAsnV)| e.0)
}

/// The `asns` column of a `ipasnmap` section.
pub open spec fn arg_ipasnmap_asns(s: Seq<(Seq<u8>, crate::state::IpAsnV)>) -> Seq<Seq<u8>> {
    s.map_values(|e: (Seq<u8>, crate::state::IpAsnV)| e.1.asn)
}

/// The `ranges` column of a `ipasnmap` section.
pub open spec fn arg_ipasnmap_ranges(s: Seq<(Seq<u8>, crate::state::IpAsnV)>) -> Seq<Seq<u8>> {
    s.map_values(|e: (Seq<u8>, crate::state::IpAsnV)| e.1.range)
}

/// The `countries` column of a `ipasnmap` section.
pub open spec fn arg_ipasnmap_countries(s: Seq<(Seq<u8>, crate::state::IpAsnV)>) -> Seq<Seq<u8>> {
    s.map_values(|e: (Seq<u8>, crate::state::IpAsnV)| e.1.country)
}

/// The `networks` column of a `ipasnmap` section.
pub open spec fn arg_ipasnmap_networks(s: Seq<(Seq<u8>, crate::state::IpAsnV)>) -> Seq<Seq<u8>> {
    s.map_values(|e: (Seq<u8>, crate::state::IpAsnV)| e.1.network)
}

/// The `lasts` column of a `ipasnmap` section.
pub open spec fn arg_ipasnmap_lasts(s: Seq<(Seq<u8>, crate::state::IpAsnV)>) -> Seq<u64> {
    s.map_values(|e: (Seq<u8>, crate::state::IpAsnV)| e.1.last_updated)
}

/// A `ipasnmap` section as bytes: its columns in order.
#[verifier::opaque]
pub open spec fn enc_ipasnmap(s: Seq<(Seq<u8>, crate::state::IpAsnV)>) -> Seq<u8> {
    enc_texts(arg_ipasnmap_keys(s)) + (enc_texts(arg_ipasnmap_asns(s)) + (enc_texts(arg_ipasnmap_ranges(s)) + (enc_texts(arg_ipasnmap_countries(s)) + (enc_texts(arg_ipasnmap_networks(s)) + (enc_u64s(arg_ipasnmap_lasts(s)))))))
}

/// Machine bounds of a `ipasnmap` section.
pub open spec fn bounded_ipasnmap(s: Seq<(Seq<u8>, crate::state::IpAsnV)>) -> bool {
    &&& s.len() <= u64::MAX
    &&& texts_bounded(arg_ipasnmap_keys(s))
    &&& texts_bounded(arg_ipasnmap_asns(s))
    &&& texts_bounded(arg_ipasnmap_ranges(s))
    &&& texts_bounded(arg_ipasnmap_countries(s))
    &&& texts_bounded(arg_ipasnmap_networks(s))
}

/// Decode of a `ipasnmap` section at `pos`.
#[verifier::opaque]
pub open spec fn dec_ipasnmap(b: Seq<u8>, pos: int) -> Option<(Seq<(Seq<u8>, crate::state::IpAsnV)>, int)> {
    match dec_texts(b, pos) {
        None => None,
        Some((c_keys, p_keys)) => {
            match dec_texts(b, p_keys) {
                None => None,
                Some((c_asns, p_asns)) => {
                    match dec_texts(b, p_asns) {
                        None => None,
                        Some((c_ranges, p_ranges)) => {
                            match dec_texts(b, p_ranges) {
                                None => None,
                                Some((c_countries, p_countries)) => {
                                    match dec_texts(b, p_countries) {
                                        None => None,
                                        Some((c_networks, p_networks)) => {
                                            match dec_u64s(b, p_networks) {
                                                None => None,
                                                Some((c_lasts, p_lasts)) => {
                                                    if c_asns.len() == c_keys.len()
        && c_ranges.len() == c_keys.len()
        && c_countries.len() == c_keys.len()
        && c_networks.len() == c_keys.len()
        && c_lasts.len() == c_keys.len() {
                                                        Some((Seq::new(c_keys.len(), |i: int| (c_keys[i], crate::state::IpAsnV { asn: c_asns[i], range: c_ranges[i], country: c_countries[i], network: c_networks[i], last_updated: c_lasts[i] })), p_lasts))
                                                    } else {
                                                        None
                                                    }
                                                },
                                            }
                                        },
                                    }
                                },
                            }
                        },
                    }
                },
            }
        },
    }
}

/// Decoding the encoding of a `ipasnmap` section gives it back.
#[verifier::rlimit(100)]
#[verifier::spinoff_prover]
pub proof fn rt_ipasnmap(s: Seq<(Seq<u8>, crate::state::IpAsnV)>, b: Seq<u8>, pos: int)
    requires
        0 <= pos,
        bounded_ipasnmap(s),
        pos + enc_ipasnmap(s).len() <= b.len(),
        b.subrange(pos, pos + enc_ipasnmap(s).len()) == enc_ipasnmap(s),
    ensures
        dec_ipasnmap(b, pos) == Some((s, pos + enc_ipasnmap(s).len())),
{
    reveal(dec_ipasnmap);
    reveal(enc_ipasnmap);
    let c_keys = enc_texts(arg_ipasnmap_keys(s));
    let c_asns = enc_texts(arg_ipasnmap_asns(s));
    let c_ranges = enc_texts(arg_ipasnmap_ranges(s));
    let c_countries = enc_texts(arg_ipasnmap_countries(s));
    let c_networks = enc_texts(arg_ipasnmap_networks(s));
    let c_lasts = enc_u64s(arg_ipasnmap_lasts(s));
    let t_lasts = c_lasts;
    let t_networks = c_networks + t_lasts;
    let t_countries = c_countries + t_networks;
    let t_ranges = c_ranges + t_countries;
    let t_asns = c_asns + t_ranges;
    let t_keys = c_keys + t_asns;
    assert(enc_ipasnmap(s) == t_keys);
    lemma_split_head(b, pos, c_keys, t_asns);
    rt_texts(arg_ipasnmap_keys(s), b, pos);
    let p_keys = pos + c_keys.len() as int;
    lemma_split_head(b, p_keys, c_asns, t_ranges);
    rt_texts(arg_ipasnmap_asns(s), b, p_keys);
    let p_asns = p_keys + c_asns.len() as int;
    lemma_split_head(b, p_asns, c_ranges, t_countries);
    rt_texts(arg_ipasnmap_ranges(s), b, p_asns);
    let p_ranges = p_asns + c_ranges.len() as int;
    lemma_split_head(b, p_ranges, c_countries, t_networks);
    rt_texts(arg_ipasnmap_countries(s), b, p_ranges);
    let p_countries = p_ranges + c_countries.len() as int;
    lemma_split_head(b, p_countries, c_networks, t_lasts);
    rt_texts(arg_ipasnmap_networks(s), b, p_countries);
    let p_networks = p_countries + c_networks.len() as int;
    rt_u64s(arg_ipasnmap_lasts(s), b, p_networks);
    let p_lasts = p_networks + c_lasts.len() as int;
    assert(Seq::new(arg_ipasnmap_keys(s).len(), |i: int| (arg_ipasnmap_keys(s)[i], crate::state::IpAsnV { asn: arg_ipasnmap_asns(s)[i], range: arg_ipasnmap_ranges(s)[i], country: arg_ipasnmap_countries(s)[i], network: arg_ipasnmap_networks(s)[i], last_updated: arg_ipasnmap_lasts(s)[i] })) =~= s);
}

/// The `keys` column of a `asnmap` section.
pub open spec fn arg_asnmap_keys(s: Seq<(Seq<u8>, crate::state::ASNV)>) -> Seq<Seq<u8>> {
    s.map_values(|e: (Seq<u8>, crate::state::ASNV)| e.0)
}

/// The `asns` column of a `asnmap` section.
pub open spec fn arg_asnmap_asns(s: Seq<(Seq<u8>, crate::state::ASNV)>) -> Seq<Seq<u8>> {
    s.map_values(|e: (Seq<u8>, crate::state::ASNV)| e.1.asn)
}

/// The `countries` column of a `asnmap` section.
pub open spec fn arg_asnmap_countries(s: Seq<(Seq<u8>, crate::state::ASNV)>) -> Seq<Seq<u8>> {
    s.map_values(|e: (Seq<u8>, crate::state::ASNV)| e.1.country)
}

/// The `nets` column of a `asnmap` section.
pub open spec fn arg_asnmap_nets(s: Seq<(Seq<u8>, crate::state::ASNV)>) -> Seq<Seq<u8>> {
    s.map_values(|e: (Seq<u8>, crate::state::ASNV)| e.1.net)
}

/// The `descs` column of a `asnmap` section.
pub open spec fn arg_asnmap_descs(s: Seq<(Seq<u8>, crate::state::ASNV)>) -> Seq<Seq<u8>> {
    s.map_values(|e: (Seq<u8>, crate::state::ASNV)| e.1.desc)
}

/// The `lasts` column of a `asnmap` section.
pub open spec fn arg_asnmap_lasts(s: Seq<(Seq<u8>, crate::state::ASNV)>) -> Seq<u64> {
    s.map_values(|e: (Seq<u8>, crate::state::ASNV)| e.1.last_updated)
}

/// A `asnmap` section as bytes: its columns in order.
#[verifier::opaque]
pub open spec fn enc_asnmap(s: Seq<(Seq<u8>, crate::state::ASNV)>) -> Seq<u8> {
    enc_texts(arg_asnmap_keys(s)) + (enc_texts(arg_asnmap_asns(s)) + (enc_texts(arg_asnmap_countries(s)) + (enc_texts(arg_asnmap_nets(s)) + (enc_texts(arg_asnmap_descs(s)) + (enc_u64s(arg_asnmap_lasts(s)))))))
}

/// Machine bounds of a `asnmap` section.
pub open spec fn bounded_asnmap(s: Seq<(Seq<u8>, crate::state::ASNV)>) -> bool {
    &&& s.len() <= u64::MAX
    &&& texts_bounded(arg_asnmap_keys(s))
    &&& texts_bounded(arg_asnmap_asns(s))
    &&& texts_bounded(arg_asnmap_countries(s))
    &&& texts_bounded(arg_asnmap_nets(s))
    &&& texts_bounded(arg_asnmap_descs(s))
}

/// Decode of a `asnmap` section at `pos`.
#[verifier::opaque]
pub open spec fn dec_asnmap(b: Seq<u8>, pos: int) -> Option<(Seq<(Seq<u8>, crate::state::ASNV)>, int)> {
    match dec_texts(b, pos) {
        None => None,
        Some((c_keys, p_keys)) => {
            match dec_texts(b, p_keys) {
                None => None,
                Some((c_asns, p_asns)) => {
                    match dec_texts(b, p_asns) {
                        None => None,
                        Some((c_countries, p_countries)) => {
                            match dec_texts(b, p_countries) {
                                None => None,
                                Some((c_nets, p_nets)) => {
                                    match dec_texts(b, p_nets) {
                                        None => None,
                                        Some((c_descs, p_descs)) => {
                                            match dec_u64s(b, p_descs) {
                                                None => None,
                                                Some((c_lasts, p_lasts)) => {
                                                    if c_asns.len() == c_keys.len()
        && c_countries.len() == c_keys.len()
        && c_nets.len() == c_keys.len()
        && c_descs.len() == c_keys.len()
        && c_lasts.len() == c_keys.len() {
                                                        Some((Seq::new(c_keys.len(), |i: int| (c_keys[i], crate::state::ASNV { asn: c_asns[i], country: c_countries[i], net: c_nets[i], desc: c_descs[i], last_updated: c_lasts[i] })), p_lasts))
                                                    } else {
                                                        None
                                                    }
                                                },
                                            }
                                        },
                                    }
                                },
                            }
                        },
                    }
                },
            }
        },
    }
}

/// Decoding the encoding of a `asnmap` section gives it back.
#[verifier::rlimit(100)]
#[verifier::spinoff_prover]
pub proof fn rt_asnmap(s: Seq<(Seq<u8>, crate::state::ASNV)>, b: Seq<u8>, pos: int)
    requires
        0 <= pos,
        bounded_asnmap(s),
        pos + enc_asnmap(s).len() <= b.len(),
        b.subrange(pos, pos + enc_asnmap(s).len()) == enc_asnmap(s),
    ensures
        dec_asnmap(b, pos) == Some((s, pos + enc_asnmap(s).len())),
{
    reveal(dec_asnmap);
    reveal(enc_asnmap);
    let c_keys = enc_texts(arg_asnmap_keys(s));
    let c_asns = enc_texts(arg_asnmap_asns(s));
    let c_countries = enc_texts(arg_asnmap_countries(s));
    let c_nets = enc_texts(arg_asnmap_nets(s));
    let c_descs = enc_texts(arg_asnmap_descs(s));
    let c_lasts = enc_u64s(arg_asnmap_lasts(s));
    let t_lasts = c_lasts;
    let t_descs = c_descs + t_lasts;
    let t_nets = c_nets + t_descs;
    let t_countries = c_countries + t_nets;
    let t_asns = c_asns + t_countries;
    let t_keys = c_keys + t_asns;
    assert(enc_asnmap(s) == t_keys);
    lemma_split_head(b, pos, c_keys, t_asns);
    rt_texts(arg_asnmap_keys(s), b, pos);
    let p_keys = pos + c_keys.len() as int;
    lemma_split_head(b, p_keys, c_asns, t_countries);
    rt_texts(arg_asnmap_asns(s), b, p_keys);
    let p_asns = p_keys + c_asns.len() as int;
    lemma_split_head(b, p_asns, c_countries, t_nets);
    rt_texts(arg_asnmap_countries(s), b, p_asns);
    let p_countries = p_asns + c_countries.len() as int;
    lemma_split_head(b, p_countries, c_nets, t_descs);
    rt_texts(arg_asnmap_nets(s), b, p_countries);
    let p_nets = p_countries + c_nets.len() as int;
    lemma_split_head(b, p_nets, c_descs, t_lasts);
    rt_texts(arg_asnmap_descs(s), b, p_nets);
    let p_descs = p_nets + c_descs.len() as int;
    rt_u64s(arg_asnmap_lasts(s), b, p_descs);
    let p_lasts = p_descs + c_lasts.len() as int;
    assert(Seq::new(arg_asnmap_keys(s).len(), |i: int| (arg_asnmap_keys(s)[i], crate::state::ASNV { asn: arg_asnmap_asns(s)[i], country: arg_asnmap_countries(s)[i], net: arg_asnmap_nets(s)[i], desc: arg_asnmap_descs(s)[i], last_updated: arg_asnmap_lasts(s)[i] })) =~= s);
}

/// The `lefts` column of a `ttmap` section.
pub open spec fn arg_ttmap_lefts(s: Seq<(Seq<u8>, Seq<u8>)>) -> Seq<Seq<u8>> {
    s.map_values(|e: (Seq<u8>, Seq<u8>)| e.0)
}

/// The `rights` column of a `ttmap` section.
pub open spec fn arg_ttmap_rights(s: Seq<(Seq<u8>, Seq<u8>)>) -> Seq<Seq<u8>> {
    s.map_values(|e: (Seq<u8>, Seq<u8>)| e.1)
}

/// A `ttmap` section as bytes: its columns in order.
#[verifier::opaque]
pub open spec fn enc_ttmap(s: Seq<(Seq<u8>, Seq<u8>)>) -> Seq<u8> {
    enc_texts(arg_ttmap_lefts(s)) + (enc_texts(arg_ttmap_rights(s)))
}

/// Machine bounds of a `ttmap` section.
pub open spec fn bounded_ttmap(s: Seq<(Seq<u8>, Seq<u8>)>) -> bool {
    &&& s.len() <= u64::MAX
    &&& texts_bounded(arg_ttmap_lefts(s))
    &&& texts_bounded(arg_ttmap_rights(s))
}

/// Decode of a `ttmap` section at `pos`.
#[verifier::opaque]
pub open spec fn dec_ttmap(b: Seq<u8>, pos: int) -> Option<(Seq<(Seq<u8>, Seq<u8>)>, int)> {
    match dec_texts(b, pos) {
        None => None,
        Some((c_lefts, p_lefts)) => {
            match dec_texts(b, p_lefts) {
                None => None,
                Some((c_rights, p_rights)) => {
                    if c_rights.len() == c_lefts.len() {
                        Some((Seq::new(c_lefts.len(), |i: int| (c_lefts[i], c_rights[i])), p_rights))
                    } else {
                        None
                    }
                },
            }
        },
    }
}

/// Decoding the encoding of a `ttmap` section gives it back.
#[verifier::rlimit(100)]
#[verifier::spinoff_prover]
pub proof fn rt_ttmap(s: Seq<(Seq<u8>, Seq<u8>)>, b: Seq<u8>, pos: int)
    requires
        0 <= pos,
        bounded_ttmap(s),
        pos + enc_ttmap(s).len() <= b.len(),
        b.subrange(pos, pos + enc_ttmap(s).len()) == enc_ttmap(s),
    ensures
        dec_ttmap(b, pos) == Some((s, pos + enc_ttmap(s).len())),
{
    reveal(dec_ttmap);
    reveal(enc_ttmap);
    let c_lefts = enc_texts(arg_ttmap_lefts(s));
    let c_rights = enc_texts(arg_ttmap_rights(s));
    let t_rights = c_rights;
    let t_lefts = c_lefts + t_rights;
    assert(enc_ttmap(s) == t_lefts);
    lemma_split_head(b, pos, c_lefts, t_rights);
    rt_texts(arg_ttmap_lefts(s), b, pos);
    let p_lefts = pos + c_lefts.len() as int;
    rt_texts(arg_ttmap_rights(s), b, p_lefts);
    let p_rights = p_lefts + c_rights.len() as int;
    assert(Seq::new(arg_ttmap_lefts(s).len(), |i: int| (arg_ttmap_lefts(s)[i], arg_ttmap_rights(s)[i])) =~= s);
}

/// The `keys` column of a `tumap` section.
pub open spec fn arg_tumap_keys(s: Seq<(Seq<u8>, u32)>) -> Seq<Seq<u8>> {
    s.map_values(|e: (Seq<u8>, u32)| e.0)
}

/// The `vals` column of a `tumap` section.
pub open spec fn arg_tumap_vals(s: Seq<(Seq<u8>, u32)>) -> Seq<u64> {
    s.map_values(|e: (Seq<u8>, u32)| e.1 as u64)
}

/// A `tumap` section as bytes: its columns in order.
#[verifier::opaque]
pub open spec fn enc_tumap(s: Seq<(Seq<u8>, u32)>) -> Seq<u8> {
    enc_texts(arg_tumap_keys(s)) + (enc_u64s(arg_tumap_vals(s)))
}

/// Machine bounds of a `tumap` section.
pub open spec fn bounded_tumap(s: Seq<(Seq<u8>, u32)>) -> bool {
    &&& s.len() <= u64::MAX
    &&& texts_bounded(arg_tumap_keys(s))
}

/// Decode of a `tumap` section at `pos`.
#[verifier::opaque]
pub open spec fn dec_tumap(b: Seq<u8>, pos: int) -> Option<(Seq<(Seq<u8>, u32)>, int)> {
    match dec_texts(b, pos) {
        None => None,
        Some((c_keys, p_keys)) => {
            match dec_u64s(b, p_keys) {
                None => None,
                Some((c_vals, p_vals)) => {
                    if c_vals.len() == c_keys.len()
        && (forall|i: int| 0 <= i < c_vals.len() ==> (#[trigger] c_vals[i]) <= 0xffff_ffff) {
                        Some((Seq::new(c_keys.len(), |i: int| (c_keys[i], c_vals[i] as u32)), p_vals))
                    } else {
                        None
                    }
                },
            }
        },
    }
}

/// Decoding the encoding of a `tumap` section gives it back.
#[verifier::rlimit(100)]
#[verifier::spinoff_prover]
pub proof fn rt_tumap(s: Seq<(Seq<u8>, u32)>, b: Seq<u8>, pos: int)
    requires
        0 <= pos,
        bounded_tumap(s),
        pos + enc_tumap(s).len() <= b.len(),
        b.subrange(pos, pos + enc_tumap(s).len()) == enc_tumap(s),
    ensures
        dec_tumap(b, pos) == Some((s, pos + enc_tumap(s).len())),
{
    reveal(dec_tumap);
    reveal(enc_tumap);
    let c_keys = enc_texts(arg_tumap_keys(s));
    let c_vals = enc_u64s(arg_tumap_vals(s));
    let t_vals = c_vals;
    let t_keys = c_keys + t_vals;
    assert(enc_tumap(s) == t_keys);
    lemma_split_head(b, pos, c_keys, t_vals);
    rt_texts(arg_tumap_keys(s), b, pos);
    let p_keys = pos + c_keys.len() as int;
    rt_u64s(arg_tumap_vals(s), b, p_keys);
    let p_vals = p_keys + c_vals.len() as int;
    assert forall|i: int| 0 <= i < arg_tumap_vals(s).len() implies (#[trigger] arg_tumap_vals(s)[i]) <= 0xffff_ffff by {}
    assert(Seq::new(arg_tumap_keys(s).len(), |i: int| (arg_tumap_keys(s)[i], arg_tumap_vals(s)[i] as u32)) =~= s);
}

/// The `keys` column of a `utmap` section.
pub open spec fn arg_utmap_keys(s: Seq<(u32, Seq<u8>)>) -> Seq<u64> {
    s.map_values(|e: (u32, Seq<u8>)| e.0 as u64)
}

/// The `vals` column of a `utmap` section.
pub open spec fn arg_utmap_vals(s: Seq<(u32, Seq<u8>)>) -> Seq<Seq<u8>> {
    s.map_values(|e: (u32, Seq<u8>)| e.1)
}

/// A `utmap` section as bytes: its columns in order.
#[verifier::opaque]
pub open spec fn enc_utmap(s: Seq<(u32, Seq<u8>)>) -> Seq<u8> {
    enc_u64s(arg_utmap_keys(s)) + (enc_texts(arg_utmap_vals(s)))
}

/// Machine bounds of a `utmap` section.
pub open spec fn bounded_utmap(s: Seq<(u32, Seq<u8>)>) -> bool {
    &&& s.len() <= u64::MAX
    &&& texts_bounded(arg_utmap_vals(s))
}

/// Decode of a `utmap` section at `pos`.
#[verifier::opaque]
pub open spec fn dec_utmap(b: Seq<u8>, pos: int) -> Option<(Seq<(u32, Seq<u8>)>, int)> {
    match dec_u64s(b, pos) {
        None => None,
        Some((c_keys, p_keys)) => {
            match dec_texts(b, p_keys) {
                None => None,
                Some((c_vals, p_vals)) => {
                    if c_vals.len() == c_keys.len()
        && (forall|i: int| 0 <= i < c_keys.len() ==> (#[trigger] c_keys[i]) <= 0xffff_ffff) {
                        Some((Seq::new(c_keys.len(), |i: int| (c_keys[i] as u32, c_vals[i])), p_vals))
                    } else {
                        None
                    }
                },
            }
        },
    }
}

/// Decoding the encoding of a `utmap` section gives it back.
#[verifier::rlimit(100)]
#[verifier::spinoff_prover]
pub proof fn rt_utmap(s: Seq<(u32, Seq<u8>)>, b: Seq<u8>, pos: int)
    requires
        0 <= pos,
        bounded_utmap(s),
        pos + enc_utmap(s).len() <= b.len(),
        b.subrange(pos, pos + enc_utmap(s).len()) == enc_utmap(s),
    ensures
        dec_utmap(b, pos) == Some((s, pos + enc_utmap(s).len())),
{
    reveal(dec_utmap);
    reveal(enc_utmap);
    let c_keys = enc_u64s(arg_utmap_keys(s));
    let c_vals = enc_texts(arg_utmap_vals(s));
    let t_vals = c_vals;
    let t_keys = c_keys + t_vals;
    assert(enc_utmap(s) == t_keys);
    lemma_split_head(b, pos, c_keys, t_vals);
    rt_u64s(arg_utmap_keys(s), b, pos);
    let p_keys = pos + c_keys.len() as int;
    rt_texts(arg_utmap_vals(s), b, p_keys);
    let p_vals = p_keys + c_vals.len() as int;
    assert forall|i: int| 0 <= i < arg_utmap_keys(s).len() implies (#[trigger] arg_utmap_keys(s)[i]) <= 0xffff_ffff by {}
    assert(Seq::new(arg_utmap_keys(s).len(), |i: int| (arg_utmap_keys(s)[i] as u32, arg_utmap_vals(s)[i])) =~= s);
}

/// The `keys` column of a `citymap` section.
pub open spec fn arg_citymap_keys(s: Seq<(u32, crate::state::GeoCityV)>) -> Seq<u64> {
    s.map_values(|e: (u32, crate::state::GeoCityV)| e.0 as u64)
}

/// The `geonames` column of a `citymap` section.
pub open spec fn arg_citymap_geonames(s: Seq<(u32, crate::state::GeoCityV)>) -> Seq<u64> {
    s.map_values(|e: (u32, crate::state::GeoCityV)| e.1.geoname_id as u64)
}

/// The `tags` column of a `citymap` section.
pub open spec fn arg_citymap_tags(s: Seq<(u32, crate::state::GeoCityV)>) -> Seq<u64> {
    s.map_values(|e: (u32, crate::state::GeoCityV)| if e.1.name is Some { 1u64 } else { 0u64 })
}

/// The `names` column of a `citymap` section.
pub open spec fn arg_citymap_names(s: Seq<(u32, crate::state::GeoCityV)>) -> Seq<Seq<u8>> {
    s.map_values(|e: (u32, crate::state::GeoCityV)| match e.1.name { Some(n) => n, None => Seq::empty() })
}

/// The `countries` column of a `citymap` section.
pub open spec fn arg_citymap_countries(s: Seq<(u32, crate::state::GeoCityV)>) -> Seq<u64> {
    s.map_values(|e: (u32, crate::state::GeoCityV)| e.1.country as u64)
}

/// The `continents` column of a `citymap` section.
pub open spec fn arg_citymap_continents(s: Seq<(u32, crate::state::GeoCityV)>) -> Seq<u64> {
    s.map_values(|e: (u32, crate::state::GeoCityV)| e.1.continent as u64)
}

/// The `lasts` column of a `citymap` section.
pub open spec fn arg_citymap_lasts(s: Seq<(u32, crate::state::GeoCityV)>) -> Seq<u64> {
    s.map_values(|e: (u32, crate::state::GeoCityV)| e.1.last_updated)
}

/// A `citymap` section as bytes: its columns in order.
#[verifier::opaque]
pub open spec fn enc_citymap(s: Seq<(u32, crate::state::GeoCityV)>) -> Seq<u8> {
    enc_u64s(arg_citymap_keys(s)) + (enc_u64s(arg_citymap_geonames(s)) + (enc_u64s(arg_citymap_tags(s)) + (enc_texts(arg_citymap_names(s)) + (enc_u64s(arg_citymap_countries(s)) + (enc_u64s(arg_citymap_continents(s)) + (enc_u64s(arg_citymap_lasts(s))))))))
}

/// Machine bounds of a `citymap` section.
pub open spec fn bounded_citymap(s: Seq<(u32, crate::state::GeoCityV)>) -> bool {
    &&& s.len() <= u64::MAX
    &&& texts_bounded(arg_citymap_names(s))
}

/// Decode of a `citymap` section at `pos`.
#[verifier::opaque]
pub open spec fn dec_citymap(b: Seq<u8>, pos: int) -> Option<(Seq<(u32, crate::state::GeoCityV)>, int)> {
    match dec_u64s(b, pos) {
        None => None,
        Some((c_keys, p_keys)) => {
            match dec_u64s(b, p_keys) {
                None => None,
                Some((c_geonames, p_geonames)) => {
                    match dec_u64s(b, p_geonames) {
                        None => None,
                        Some((c_tags, p_tags)) => {
                            match dec_texts(b, p_tags) {
                                None => None,
                                Some((c_names, p_names)) => {
                                    match dec_u64s(b, p_names) {
                                        None => None,
                                        Some((c_countries, p_countries)) => {
                                            match dec_u64s(b, p_countries) {
                                                None => None,
                                                Some((c_continents, p_continents)) => {
                                                    match dec_u64s(b, p_continents) {
                                                        None => None,
                                                        Some((c_lasts, p_lasts)) => {
                                                            if c_geonames.len() == c_keys.len()
        && c_tags.len() == c_keys.len()
        && c_names.len() == c_keys.len()
        && c_countries.len() == c_keys.len()
        && c_continents.len() == c_keys.len()
        && c_lasts.len() == c_keys.len()
        && (forall|i: int| 0 <= i < c_keys.len() ==> (#[trigger] c_keys[i]) <= 0xffff_ffff)
        && (forall|i: int| 0 <= i < c_geonames.len() ==> (#[trigger] c_geonames[i]) <= 0xffff_ffff)
        && (forall|i: int| 0 <= i < c_tags.len() ==> (#[trigger] c_tags[i]) <= 1)
        && (forall|i: int| 0 <= i < c_countries.len() ==> (#[trigger] c_countries[i]) <= 0xffff_ffff)
        && (forall|i: int| 0 <= i < c_continents.len() ==> (#[trigger] c_continents[i]) <= 0xffff_ffff) {
                                                                Some((Seq::new(c_keys.len(), |i: int| (c_keys[i] as u32, crate::state::GeoCityV { geoname_id: c_geonames[i] as u32, name: if c_tags[i] == 1 { Some(c_names[i]) } else { None }, country: c_countries[i] as u32, continent: c_continents[i] as u32, last_updated: c_lasts[i] })), p_lasts))
                                                            } else {
                                                                None
                                                            }
                                                        },
                                                    }
                                                },
                                            }
                                        },
                                    }
                                },
                            }
                        },
                    }
                },
            }
        },
    }
}

/// Decoding the encoding of a `citymap` section gives it back.
#[verifier::rlimit(100)]
#[verifier::spinoff_prover]
pub proof fn rt_citymap(s: Seq<(u32, crate::state::GeoCityV)>, b: Seq<u8>, pos: int)
    requires
        0 <= pos,
        bounded_citymap(s),
        pos + enc_citymap(s).len() <= b.len(),
        b.subrange(pos, pos + enc_citymap(s).len()) == enc_citymap(s),
    ensures
        dec_citymap(b, pos) == Some((s, pos + enc_citymap(s).len())),
{
    reveal(dec_citymap);
    reveal(enc_citymap);
    let c_keys = enc_u64s(arg_citymap_keys(s));
    let c_geonames = enc_u64s(arg_citymap_geonames(s));
    let c_tags = enc_u64s(arg_citymap_tags(s));
    let c_names = enc_texts(arg_citymap_names(s));
    let c_countries = enc_u64s(arg_citymap_countries(s));
    let c_continents = enc_u64s(arg_citymap_continents(s));
    let c_lasts = enc_u64s(arg_citymap_lasts(s));
    let t_lasts = c_lasts;
    let t_continents = c_continents + t_lasts;
    let t_countries = c_countries + t_continents;
    let t_names = c_names + t_countries;
    let t_tags = c_tags + t_names;
    let t_geonames = c_geonames + t_tags;
    let t_keys = c_keys + t_geonames;
    assert(enc_citymap(s) == t_keys);
    lemma_split_head(b, pos, c_keys, t_geonames);
    rt_u64s(arg_citymap_keys(s), b, pos);
    let p_keys = pos + c_keys.len() as int;
    lemma_split_head(b, p_keys, c_geonames, t_tags);
    rt_u64s(arg_citymap_geonames(s), b, p_keys);
    let p_geonames = p_keys + c_geonames.len() as int;
    lemma_split_head(b, p_geonames, c_tags, t_names);
    rt_u64s(arg_citymap_tags(s), b, p_geonames);
    let p_tags = p_geonames + c_tags.len() as int;
    lemma_split_head(b, p_tags, c_names, t_countries);
    rt_texts(arg_citymap_names(s), b, p_tags);
    let p_names = p_tags + c_names.len() as int;
    lemma_split_head(b, p_names, c_countries, t_continents);
    rt_u64s(arg_citymap_countries(s), b, p_names);
    let p_countries = p_names + c_countries.len() as int;
    lemma_split_head(b, p_countries, c_continents, t_lasts);
    rt_u64s(arg_citymap_continents(s), b, p_countries);
    let p_continents = p_countries + c_continents.len() as int;
    rt_u64s(arg_citymap_lasts(s), b, p_continents);
    let p_lasts = p_continents + c_lasts.len() as int;
    assert forall|i: int| 0 <= i < arg_citymap_keys(s).len() implies (#[trigger] arg_citymap_keys(s)[i]) <= 0xffff_ffff by {}
    assert forall|i: int| 0 <= i < arg_citymap_geonames(s).len() implies (#[trigger] arg_citymap_geonames(s)[i]) <= 0xffff_ffff by {}
    assert forall|i: int| 0 <= i < arg_citymap_tags(s).len() implies (#[trigger] arg_citymap_tags(s)[i]) <= 1 by {}
    assert forall|i: int| 0 <= i < arg_citymap_countries(s).len() implies (#[trigger] arg_citymap_countries(s)[i]) <= 0xffff_ffff by {}
    assert forall|i: int| 0 <= i < arg_citymap_continents(s).len() implies (#[trigger] arg_citymap_continents(s)[i]) <= 0xffff_ffff by {}
    assert(Seq::new(arg_citymap_keys(s).len(), |i: int| (arg_citymap_keys(s)[i] as u32, crate::state::GeoCityV { geoname_id: arg_citymap_geonames(s)[i] as u32, name: if arg_citymap_tags(s)[i] == 1 { Some(arg_citymap_names(s)[i]) } else { None }, country: arg_citymap_countries(s)[i] as u32, continent: arg_citymap_continents(s)[i] as u32, last_updated: arg_citymap_lasts(s)[i] })) =~= s);
}

/// The `keys` column of a `countrymap` section.
pub open spec fn arg_countrymap_keys(s: Seq<(u32, crate::state::GeoCountryV)>) -> Seq<u64> {
    s.map_values(|e: (u32, crate::state::GeoCountryV)| e.0 as u64)
}

/// The `geonames` column of a `countrymap` section.
pub open spec fn arg_countrymap_geonames(s: Seq<(u32, crate::state::GeoCountryV)>) -> Seq<u64> {
    s.map_values(|e: (u32, crate::state::GeoCountryV)| e.1.geoname_id as u64)
}

/// The `tags` column of a `countrymap` section.
pub open spec fn arg_countrymap_tags(s: Seq<(u32, crate::state::GeoCountryV)>) -> Seq<u64> {
    s.map_values(|e: (u32, crate::state::GeoCountryV)| if e.1.name is Some { 1u64 } else { 0u64 })
}

/// The `names` column of a `countrymap` section.
pub open spec fn arg_countrymap_names(s: Seq<(u32, crate::state::GeoCountryV)>) -> Seq<Seq<u8>> {
    s.map_values(|e: (u32, crate::state::GeoCountryV)| match e.1.name { Some(n) => n, None => Seq::empty() })
}

/// The `eus` column of a `countrymap` section.
pub open spec fn arg_countrymap_eus(s: Seq<(u32, crate::state::GeoCountryV)>) -> Seq<u64> {
    s.map_values(|e: (u32, crate::state::GeoCountryV)| match e.1.is_in_european_union { None => 0u64, Some(false) => 1u64, Some(true) => 2u64 })
}

/// The `isotags` column of a `countrymap` section.
pub open spec fn arg_countrymap_isotags(s: Seq<(u32, crate::state::GeoCountryV)>) -> Seq<u64> {
    s.map_values(|e: (u32, crate::state::GeoCountryV)| if e.1.iso_code is Some { 1u64 } else { 0u64 })
}

/// The `isos` column of a `countrymap` section.
pub open spec fn arg_countrymap_isos(s: Seq<(u32, crate::state::GeoCountryV)>) -> Seq<Seq<u8>> {
    s.map_values(|e: (u32, crate::state::GeoCountryV)| match e.1.iso_code { Some(n) => n, None => Seq::empty() })
}

/// The `lasts` column of a `countrymap` section.
pub open spec fn arg_countrymap_lasts(s: Seq<(u32, crate::state::GeoCountryV)>) -> Seq<u64> {
    s.map_values(|e: (u32, crate::state::GeoCountryV)| e.1.last_updated)
}

/// A `countrymap` section as bytes: its columns in order.
#[verifier::opaque]
pub open spec fn enc_countrymap(s: Seq<(u32, crate::state::GeoCountryV)>) -> Seq<u8> {
    enc_u64s(arg_countrymap_keys(s)) + (enc_u64s(arg_countrymap_geonames(s)) + (enc_u64s(arg_countrymap_tags(s)) + (enc_texts(arg_countrymap_names(s)) + (enc_u64s(arg_countrymap_eus(s)) + (enc_u64s(arg_countrymap_isotags(s)) + (enc_texts(arg_countrymap_isos(s)) + (enc_u64s(arg_countrymap_lasts(s)))))))))
}

/// Machine bounds of a `countrymap` section.
pub open spec fn bounded_countrymap(s: Seq<(u32, crate::state::GeoCountryV)>) -> bool {
    &&& s.len() <= u64::MAX
    &&& texts_bounded(arg_countrymap_names(s))
    &&& texts_bounded(arg_countrymap_isos(s))
}

/// Decode of a `countrymap` section at `pos`.
#[verifier::opaque]
pub open spec fn dec_countrymap(b: Seq<u8>, pos: int) -> Option<(Seq<(u32, crate::state::GeoCountryV)>, int)> {
    match dec_u64s(b, pos) {
        None => None,
        Some((c_keys, p_keys)) => {
            match dec_u64s(b, p_keys) {
                None => None,
                Some((c_geonames, p_geonames)) => {
                    match dec_u64s(b, p_geonames) {
                        None => None,
                        Some((c_tags, p_tags)) => {
                            match dec_texts(b, p_tags) {
                                None => None,
                                Some((c_names, p_names)) => {
                                    match dec_u64s(b, p_names) {
                                        None => None,
                                        Some((c_eus, p_eus)) => {
                                            match dec_u64s(b, p_eus) {
                                                None => None,
                                                Some((c_isotags, p_isotags)) => {
                                                    match dec_texts(b, p_isotags) {
                                                        None => None,
                                                        Some((c_isos, p_isos)) => {
                                                            match dec_u64s(b, p_isos) {
                                                                None => None,
                                                                Some((c_lasts, p_lasts)) => {
                                                                    if c_geonames.len() == c_keys.len()
        && c_tags.len() == c_keys.len()
        && c_names.len() == c_keys.len()
        && c_eus.len() == c_keys.len()
        && c_isotags.len() == c_keys.len()
        && c_isos.len() == c_keys.len()
        && c_lasts.len() == c_keys.len()
        && (forall|i: int| 0 <= i < c_keys.len() ==> (#[trigger] c_keys[i]) <= 0xffff_ffff)
        && (forall|i: int| 0 <= i < c_geonames.len() ==> (#[trigger] c_geonames[i]) <= 0xffff_ffff)
        && (forall|i: int| 0 <= i < c_tags.len() ==> (#[trigger] c_tags[i]) <= 1)
        && (forall|i: int| 0 <= i < c_eus.len() ==> (#[trigger] c_eus[i]) <= 2)
        && (forall|i: int| 0 <= i < c_isotags.len() ==> (#[trigger] c_isotags[i]) <= 1) {
                                                                        Some((Seq::new(c_keys.len(), |i: int| (c_keys[i] as u32, crate::state::GeoCountryV { geoname_id: c_geonames[i] as u32, name: if c_tags[i] == 1 { Some(c_names[i]) } else { None }, is_in_european_union: if c_eus[i] == 0 { None } else { Some(c_eus[i] == 2) }, iso_code: if c_isotags[i] == 1 { Some(c_isos[i]) } else { None }, last_updated: c_lasts[i] })), p_lasts))
                                                                    } else {
                                                                        None
                                                                    }
                                                                },
                                                            }
                                                        },
                                                    }
                                                },
                                            }
                                        },
                                    }
                                },
                            }
                        },
                    }
                },
            }
        },
    }
}

/// Decoding the encoding of a `countrymap` section gives it back.
#[verifier::rlimit(100)]
#[verifier::spinoff_prover]
pub proof fn rt_countrymap(s: Seq<(u32, crate::state::GeoCountryV)>, b: Seq<u8>, pos: int)
    requires
        0 <= pos,
        bounded_countrymap(s),
        pos + enc_countrymap(s).len() <= b.len(),
        b.subrange(pos, pos + enc_countrymap(s).len()) == enc_countrymap(s),
    ensures
        dec_countrymap(b, pos) == Some((s, pos + enc_countrymap(s).len())),
{
    reveal(dec_countrymap);
    reveal(enc_countrymap);
    let c_keys = enc_u64s(arg_countrymap_keys(s));
    let c_geonames = enc_u64s(arg_countrymap_geonames(s));
    let c_tags = enc_u64s(arg_countrymap_tags(s));
    let c_names = enc_texts(arg_countrymap_names(s));
    let c_eus = enc_u64s(arg_countrymap_eus(s));
    let c_isotags = enc_u64s(arg_countrymap_isotags(s));
    let c_isos = enc_texts(arg_countrymap_isos(s));
    let c_lasts = enc_u64s(arg_countrymap_lasts(s));
    let t_lasts = c_lasts;
    let t_isos = c_isos + t_lasts;
    let t_isotags = c_isotags + t_isos;
    let t_eus = c_eus + t_isotags;
    let t_names = c_names + t_eus;
    let t_tags = c_tags + t_names;
    let t_geonames = c_geonames + t_tags;
    let t_keys = c_keys + t_geonames;
    assert(enc_countrymap(s) == t_keys);
    lemma_split_head(b, pos, c_keys, t_geonames);
    rt_u64s(arg_countrymap_keys(s), b, pos);
    let p_keys = pos + c_keys.len() as int;
    lemma_split_head(b, p_keys, c_geonames, t_tags);
    rt_u64s(arg_countrymap_geonames(s), b, p_keys);
    let p_geonames = p_keys + c_geonames.len() as int;
    lemma_split_head(b, p_geonames, c_tags, t_names);
    rt_u64s(arg_countrymap_tags(s), b, p_geonames);
    let p_tags = p_geonames + c_tags.len() as int;
    lemma_split_head(b, p_tags, c_names, t_eus);
    rt_texts(arg_countrymap_names(s), b, p_tags);
    let p_names = p_tags + c_names.len() as int;
    lemma_split_head(b, p_names, c_eus, t_isotags);
    rt_u64s(arg_countrymap_eus(s), b, p_names);
    let p_eus = p_names + c_eus.len() as int;
    lemma_split_head(b, p_eus, c_isotags, t_isos);
    rt_u64s(arg_countrymap_isotags(s), b, p_eus);
    let p_isotags = p_eus + c_isotags.len() as int;
    lemma_split_head(b, p_isotags, c_isos, t_lasts);
    rt_texts(arg_countrymap_isos(s), b, p_isotags);
    let p_isos = p_isotags + c_isos.len() as int;
    rt_u64s(arg_countrymap_lasts(s), b, p_isos);
    let p_lasts = p_isos + c_lasts.len() as int;
    assert forall|i: int| 0 <= i < arg_countrymap_keys(s).len() implies (#[trigger] arg_countrymap_keys(s)[i]) <= 0xffff_ffff by {}
    assert forall|i: int| 0 <= i < arg_countrymap_geonames(s).len() implies (#[trigger] arg_countrymap_geonames(s)[i]) <= 0xffff_ffff by {}
    assert forall|i: int| 0 <= i < arg_countrymap_tags(s).len() implies (#[trigger] arg_countrymap_tags(s)[i]) <= 1 by {}
    assert forall|i: int| 0 <= i < arg_countrymap_eus(s).len() implies (#[trigger] arg_countrymap_eus(s)[i]) <= 2 by {}
    assert forall|i: int| 0 <= i < arg_countrymap_isotags(s).len() implies (#[trigger] arg_countrymap_isotags(s)[i]) <= 1 by {}
    assert(Seq::new(arg_countrymap_keys(s).len(), |i: int| (arg_countrymap_keys(s)[i] as u32, crate::state::GeoCountryV { geoname_id: arg_countrymap_geonames(s)[i] as u32, name: if arg_countrymap_tags(s)[i] == 1 { Some(arg_countrymap_names(s)[i]) } else { None }, is_in_european_union: if arg_countrymap_eus(s)[i] == 0 { None } else { Some(arg_countrymap_eus(s)[i] == 2) }, iso_code: if arg_countrymap_isotags(s)[i] == 1 { Some(arg_countrymap_isos(s)[i]) } else { None }, last_updated: arg_countrymap_lasts(s)[i] })) =~= s);
}

/// The `keys` column of a `continentmap` section.
pub open spec fn arg_continentmap_keys(s: Seq<(u32, crate::state::GeoContinentV)>) -> Seq<u64> {
    s.map_values(|e: (u32, crate::state::GeoContinentV)| e.0 as u64)
}

/// The `geonames` column of a `continentmap` section.
pub open spec fn arg_continentmap_geonames(s: Seq<(u32, crate::state::GeoContinentV)>) -> Seq<u64> {
    s.map_values(|e: (u32, crate::state::GeoContinentV)| e.1.geoname_id as u64)
}

/// The `tags` column of a `continentmap` section.
pub open spec fn arg_continentmap_tags(s: Seq<(u32, crate::state::GeoContinentV)>) -> Seq<u64> {
    s.map_values(|e: (u32, crate::state::GeoContinentV)| if e.1.name is Some { 1u64 } else { 0u64 })
}

/// The `names` column of a `continentmap` section.
pub open spec fn arg_continentmap_names(s: Seq<(u32, crate::state::GeoContinentV)>) -> Seq<Seq<u8>> {
    s.map_values(|e: (u32, crate::state::GeoContinentV)| match e.1.name { Some(n) => n, None => Seq::empty() })
}

/// The `codetags` column of a `continentmap` section.
pub open spec fn arg_continentmap_codetags(s: Seq<(u32, crate::state::GeoContinentV)>) -> Seq<u64> {
    s.map_values(|e: (u32, crate::state::GeoContinentV)| if e.1.code is Some { 1u64 } else { 0u64 })
}

/// The `codes` column of a `continentmap` section.
pub open spec fn arg_continentmap_codes(s: Seq<(u32, crate::state::GeoContinentV)>) -> Seq<Seq<u8>> {
    s.map_values(|e: (u32, crate::state::GeoContinentV)| match e.1.code { Some(n) => n, None => Seq::empty() })
}

/// The `lasts` column of a `continentmap` section.
pub open spec fn arg_continentmap_lasts(s: Seq<(u32, crate::state::GeoContinentV)>) -> Seq<u64> {
    s.map_values(|e: (u32, crate::state::GeoContinentV)| e.1.last_updated)
}

/// A `continentmap` section as bytes: its columns in order.
#[verifier::opaque]
pub open spec fn enc_continentmap(s: Seq<(u32, crate::state::GeoContinentV)>) -> Seq<u8> {
    enc_u64s(arg_continentmap_keys(s)) + (enc_u64s(arg_continentmap_geonames(s)) + (enc_u64s(arg_continentmap_tags(s)) + (enc_texts(arg_continentmap_names(s)) + (enc_u64s(arg_continentmap_codetags(s)) + (enc_texts(arg_continentmap_codes(s)) + (enc_u64s(arg_continentmap_lasts(s))))))))
}

/// Machine bounds of a `continentmap` section.
pub open spec fn bounded_continentmap(s: Seq<(u32, crate::state::GeoContinentV)>) -> bool {
    &&& s.len() <= u64::MAX
    &&& texts_bounded(arg_continentmap_names(s))
    &&& texts_bounded(arg_continentmap_codes(s))
}

/// Decode of a `continentmap` section at `pos`.
#[verifier::opaque]
pub open spec fn dec_continentmap(b: Seq<u8>, pos: int) -> Option<(Seq<(u32, crate::state::GeoContinentV)>, int)> {
    match dec_u64s(b, pos) {
        None => None,
        Some((c_keys, p_keys)) => {
            match dec_u64s(b, p_keys) {
                None => None,
                Some((c_geonames, p_geonames)) => {
                    match dec_u64s(b, p_geonames) {
                        None => None,
                        Some((c_tags, p_tags)) => {
                            match dec_texts(b, p_tags) {
                                None => None,
                                Some((c_names, p_names)) => {
                                    match dec_u64s(b, p_names) {
                                        None => None,
                                        Some((c_codetags, p_codetags)) => {
                                            match dec_texts(b, p_codetags) {
                                                None => None,
                                                Some((c_codes, p_codes)) => {
                                                    match dec_u64s(b, p_codes) {
                                                        None => None,
                                                        Some((c_lasts, p_lasts)) => {
                                                            if c_geonames.len() == c_keys.len()
        && c_tags.len() == c_keys.len()
        && c_names.len() == c_keys.len()
        && c_codetags.len() == c_keys.len()
        && c_codes.len() == c_keys.len()
        && c_lasts.len() == c_keys.len()
        && (forall|i: int| 0 <= i < c_keys.len() ==> (#[trigger] c_keys[i]) <= 0xffff_ffff)
        && (forall|i: int| 0 <= i < c_geonames.len() ==> (#[trigger] c_geonames[i]) <= 0xffff_ffff)
        && (forall|i: int| 0 <= i < c_tags.len() ==> (#[trigger] c_tags[i]) <= 1)
        && (forall|i: int| 0 <= i < c_codetags.len() ==> (#[trigger] c_codetags[i]) <= 1) {
                                                                Some((Seq::new(c_keys.len(), |i: int| (c_keys[i] as u32, crate::state::GeoContinentV { geoname_id: c_geonames[i] as u32, name: if c_tags[i] == 1 { Some(c_names[i]) } else { None }, code: if c_codetags[i] == 1 { Some(c_codes[i]) } else { None }, last_updated: c_lasts[i] })), p_lasts))
                                                            } else {
                                                                None
                                                            }
                                                        },
                                                    }
                                                },
                                            }
                                        },
                                    }
                                },
                            }
                        },
                    }
                },
            }
        },
    }
}

/// Decoding the encoding of a `continentmap` section gives it back.
#[verifier::rlimit(100)]
#[verifier::spinoff_prover]
pub proof fn rt_continentmap(s: Seq<(u32, crate::state::GeoContinentV)>, b: Seq<u8>, pos: int)
    requires
        0 <= pos,
        bounded_continentmap(s),
        pos + enc_continentmap(s).len() <= b.len(),
        b.subrange(pos, pos + enc_continentmap(s).len()) == enc_continentmap(s),
    ensures
        dec_continentmap(b, pos) == Some((s, pos + enc_continentmap(s).len())),
{
    reveal(dec_continentmap);
    reveal(enc_continentmap);
    let c_keys = enc_u64s(arg_continentmap_keys(s));
    let c_geonames = enc_u64s(arg_continentmap_geonames(s));
    let c_tags = enc_u64s(arg_continentmap_tags(s));
    let c_names = enc_texts(arg_continentmap_names(s));
    let c_codetags = enc_u64s(arg_continentmap_codetags(s));
    let c_codes = enc_texts(arg_continentmap_codes(s));
    let c_lasts = enc_u64s(arg_continentmap_lasts(s));
    let t_lasts = c_lasts;
    let t_codes = c_codes + t_lasts;
    let t_codetags = c_codetags + t_codes;
    let t_names = c_names + t_codetags;
    let t_tags = c_tags + t_names;
    let t_geonames = c_geonames + t_tags;
    let t_keys = c_keys + t_geonames;
    assert(enc_continentmap(s) == t_keys);
    lemma_split_head(b, pos, c_keys, t_geonames);
    rt_u64s(arg_continentmap_keys(s), b, pos);
    let p_keys = pos + c_keys.len() as int;
    lemma_split_head(b, p_keys, c_geonames, t_tags);
    rt_u64s(arg_continentmap_geonames(s), b, p_keys);
    let p_geonames = p_keys + c_geonames.len() as int;
    lemma_split_head(b, p_geonames, c_tags, t_names);
    rt_u64s(arg_continentmap_tags(s), b, p_geonames);
    let p_tags = p_geonames + c_tags.len() as int;
    lemma_split_head(b, p_tags, c_names, t_codetags);
    rt_texts(arg_continentmap_names(s), b, p_tags);
    let p_names = p_tags + c_names.len() as int;
    lemma_split_head(b, p_names, c_codetags, t_codes);
    rt_u64s(arg_continentmap_codetags(s), b, p_names);
    let p_codetags = p_names + c_codetags.len() as int;
    lemma_split_head(b, p_codetags, c_codes, t_lasts);
    rt_texts(arg_continentmap_codes(s), b, p_codetags);
    let p_codes = p_codetags + c_codes.len() as int;
    rt_u64s(arg_continentmap_lasts(s), b, p_codes);
    let p_lasts = p_codes + c_lasts.len() as int;
    assert forall|i: int| 0 <= i < arg_continentmap_keys(s).len() implies (#[trigger] arg_continentmap_keys(s)[i]) <= 0xffff_ffff by {}
    assert forall|i: int| 0 <= i < arg_continentmap_geonames(s).len() implies (#[trigger] arg_continentmap_geonames(s)[i]) <= 0xffff_ffff by {}
    assert forall|i: int| 0 <= i < arg_continentmap_tags(s).len() implies (#[trigger] arg_continentmap_tags(s)[i]) <= 1 by {}
    assert forall|i: int| 0 <= i < arg_continentmap_codetags(s).len() implies (#[trigger] arg_continentmap_codetags(s)[i]) <= 1 by {}
    assert(Seq::new(arg_continentmap_keys(s).len(), |i: int| (arg_continentmap_keys(s)[i] as u32, crate::state::GeoContinentV { geoname_id: arg_continentmap_geonames(s)[i] as u32, name: if arg_continentmap_tags(s)[i] == 1 { Some(arg_continentmap_names(s)[i]) } else { None }, code: if arg_continentmap_codetags(s)[i] == 1 { Some(arg_continentmap_codes(s)[i]) } else { None }, last_updated: arg_continentmap_lasts(s)[i] })) =~= s);
}

/// The image of a `nodemap` section's entries.
pub open spec fn view_nodemap(m: Seq<(crate::text::Text, crate::state::NodeAddr)>) -> Seq<(Seq<u8>, crate::state::NodeAddrV)> {
    m.map_values(|e: (crate::text::Text, crate::state::NodeAddr)| (e.0@, e.1@))
}

/// Append the encoding of a `nodemap` section.
pub fn write_nodemap(buf: &mut Vec<u8>, m: &Vec<(crate::text::Text, crate::state::NodeAddr)>)
    ensures
        final(buf)@ == old(buf)@ + enc_nodemap(view_nodemap(m@)),
{
    proof {
        reveal(enc_nodemap);
    }
    let ghost mv = view_nodemap(m@);
    let mut col_keys: Vec<crate::text::Text> = Vec::new();
    let mut i: usize = 0;
    while i < m.len()
        invariant
            mv == view_nodemap(m@),
            i <= m@.len(),
            col_keys@.len() == i,
            forall|j: int| 0 <= j < i ==> (#[trigger] col_keys@[j])@ == arg_nodemap_keys(mv)[j],
        decreases m@.len() - i,
    {
        col_keys.push(m[i].0.clone());
        i = i + 1;
    }
    proof { assert(col_keys@.map_values(|t: crate::text::Text| t@) =~= arg_nodemap_keys(mv)); }
    let mut col_ids: Vec<crate::text::Text> = Vec::new();
    let mut i: usize = 0;
    while i < m.len()
        invariant
            mv == view_nodemap(m@),
            i <= m@.len(),
            col_ids@.len() == i,
            forall|j: int| 0 <= j < i ==> (#[trigger] col_ids@[j])@ == arg_nodemap_ids(mv)[j],
        decreases m@.len() - i,
    {
        col_ids.push(m[i].1.id.clone());
        i = i + 1;
    }
    proof { assert(col_ids@.map_values(|t: crate::text::Text| t@) =~= arg_nodemap_ids(mv)); }
    let mut col_ips: Vec<crate::text::Text> = Vec::new();
    let mut i: usize = 0;
    while i < m.len()
        invariant
            mv == view_nodemap(m@),
            i <= m@.len(),
            col_ips@.len() == i,
            forall|j: int| 0 <= j < i ==> (#[trigger] col_ips@[j])@ == arg_nodemap_ips(mv)[j],
        decreases m@.len() - i,
    {
        col_ips.push(m[i].1.ip.clone());
        i = i + 1;
    }
    proof { assert(col_ips@.map_values(|t: crate::text::Text| t@) =~= arg_nodemap_ips(mv)); }
    let mut col_ports: Vec<u64> = Vec::new();
    let mut i: usize = 0;
    while i < m.len()
        invariant
            mv == view_nodemap(m@),
            i <= m@.len(),
            col_ports@.len() == i,
            forall|j: int| 0 <= j < i ==> (#[trigger] col_ports@[j]) == arg_nodemap_ports(mv)[j],
        decreases m@.len() - i,
    {
        col_ports.push(m[i].1.port);
        i = i + 1;
    }
    proof { assert(col_ports@ =~= arg_nodemap_ports(mv)); }
    write_texts(buf, &col_keys);
    write_texts(buf, &col_ids);
    write_texts(buf, &col_ips);
    write_u64s(buf, &col_ports);
    proof { assert(buf@ =~= old(buf)@ + enc_nodemap(mv)); }
}

/// The image of a `ipasnmap` section's entries.
pub open spec fn view_ipasnmap(m: Seq<(crate::text::Text, crate::state::IpAsnMapping)>) -> Seq<(Seq<u8>, crate::state::IpAsnV)> {
    m.map_values(|e: (crate::text::Text, crate::state::IpAsnMapping)| (e.0@, e.1@))
}

/// Append the encoding of a `ipasnmap` section.
pub fn write_ipasnmap(buf: &mut Vec<u8>, m: &Vec<(crate::text::Text, crate::state::IpAsnMapping)>)
    ensures
        final(buf)@ == old(buf)@ + enc_ipasnmap(view_ipasnmap(m@)),
{
    proof {
        reveal(enc_ipasnmap);
    }
    let ghost mv = view_ipasnmap(m@);
    let mut col_keys: Vec<crate::text::Text> = Vec::new();
    let mut i: usize = 0;
    while i < m.len()
        invariant
            mv == view_ipasnmap(m@),
            i <= m@.len(),
            col_keys@.len() == i,
            forall|j: int| 0 <= j < i ==> (#[trigger] col_keys@[j])@ == arg_ipasnmap_keys(mv)[j],
        decreases m@.len() - i,
    {
        col_keys.push(m[i].0.clone());
        i = i + 1;
    }
    proof { assert(col_keys@.map_values(|t: crate::text::Text| t@) =~= arg_ipasnmap_keys(mv)); }
    let mut col_asns: Vec<crate::text::Text> = Vec::new();
    let mut i: usize = 0;
    while i < m.len()
        invariant
            mv == view_ipasnmap(m@),
            i <= m@.len(),
            col_asns@.len() == i,
            forall|j: int| 0 <= j < i ==> (#[trigger] col_asns@[j])@ == arg_ipasnmap_asns(mv)[j],
        decreases m@.len() - i,
    {
        col_asns.push(m[i].1.asn.clone());
        i = i + 1;
    }
    proof { assert(col_asns@.map_values(|t: crate::text::Text| t@) =~= arg_ipasnmap_asns(mv)); }
    let mut col_ranges: Vec<crate::text::Text> = Vec::new();
    let mut i: usize = 0;
    while i < m.len()
        invariant
            mv == view_ipasnmap(m@),
            i <= m@.len(),
            col_ranges@.len() == i,
            forall|j: int| 0 <= j < i ==> (#[trigger] col_ranges@[j])@ == arg_ipasnmap_ranges(mv)[j],
        decreases m@.len() - i,
    {
        col_ranges.push(m[i].1.range.clone());
        i = i + 1;
    }
    proof { assert(col_ranges@.map_values(|t: crate::text::Text| t@) =~= arg_ipasnmap_ranges(mv)); }
    let mut col_countries: Vec<crate::text::Text> = Vec::new();
    let mut i: usize = 0;
    while i < m.len()
        invariant
            mv == view_ipasnmap(m@),
            i <= m@.len(),
            col_countries@.len() == i,
            forall|j: int| 0 <= j < i ==> (#[trigger] col_countries@[j])@ == arg_ipasnmap_countries(mv)[j],
        decreases m@.len() - i,
    {
        col_countries.push(m[i].1.country.clone());
        i = i + 1;
    }
    proof { assert(col_countries@.map_values(|t: crate::text::Text| t@) =~= arg_ipasnmap_countries(mv)); }
    let mut col_networks: Vec<crate::text::Text> = Vec::new();
    let mut i: usize = 0;
    while i < m.len()
        invariant
            mv == view_ipasnmap(m@),
            i <= m@.len(),
            col_networks@.len() == i,
            forall|j: int| 0 <= j < i ==> (#[trigger] col_networks@[j])@ == arg_ipasnmap_networks(mv)[j],
        decreases m@.len() - i,
    {
        col_networks.push(m[i].1.network.clone());
        i = i + 1;
    }
    proof { assert(col_networks@.map_values(|t: crate::text::Text| t@) =~= arg_ipasnmap_networks(mv)); }
    let mut col_lasts: Vec<u64> = Vec::new();
    let mut i: usize = 0;
    while i < m.len()
        invariant
            mv == view_ipasnmap(m@),
            i <= m@.len(),
            col_lasts@.len() == i,
            forall|j: int| 0 <= j < i ==> (#[trigger] col_lasts@[j]) == arg_ipasnmap_lasts(mv)[j],
        decreases m@.len() - i,
    {
        col_lasts.push(m[i].1.last_updated);
        i = i + 1;
    }
    proof { assert(col_lasts@ =~= arg_ipasnmap_lasts(mv)); }
    write_texts(buf, &col_keys);
    write_texts(buf, &col_asns);
    write_texts(buf, &col_ranges);
    write_texts(buf, &col_countries);
    write_texts(buf, &col_networks);
    write_u64s(buf, &col_lasts);
    proof { assert(buf@ =~= old(buf)@ + enc_ipasnmap(mv)); }
}

/// The image of a `asnmap` section's entries.
pub open spec fn view_asnmap(m: Seq<(crate::text::Text, crate::state::ASN)>) -> Seq<(Seq<u8>, crate::state::ASNV)> {
    m.map_values(|e: (crate::text::Text, crate::state::ASN)| (e.0@, e.1@))
}

/// Append the encoding of a `asnmap` section.
pub fn write_asnmap(buf: &mut Vec<u8>, m: &Vec<(crate::text::Text, crate::state::ASN)>)
    ensures
        final(buf)@ == old(buf)@ + enc_asnmap(view_asnmap(m@)),
{
    proof {
        reveal(enc_asnmap);
    }
    let ghost mv = view_asnmap(m@);
    let mut col_keys: Vec<crate::text::Text> = Vec::new();
    let mut i: usize = 0;
    while i < m.len()
        invariant
            mv == view_asnmap(m@),
            i <= m@.len(),
            col_keys@.len() == i,
            forall|j: int| 0 <= j < i ==> (#[trigger] col_keys@[j])@ == arg_asnmap_keys(mv)[j],
        decreases m@.len() - i,
    {
        col_keys.push(m[i].0.clone());
        i = i + 1;
    }
    proof { assert(col_keys@.map_values(|t: crate::text::Text| t@) =~= arg_asnmap_keys(mv)); }
    let mut col_asns: Vec<crate::text::Text> = Vec::new();
    let mut i: usize = 0;
    while i < m.len()
        invariant
            mv == view_asnmap(m@),
            i <= m@.len(),
            col_asns@.len() == i,
            forall|j: int| 0 <= j < i ==> (#[trigger] col_asns@[j])@ == arg_asnmap_asns(mv)[j],
        decreases m@.len() - i,
    {
        col_asns.push(m[i].1.asn.clone());
        i = i + 1;
    }
    proof { assert(col_asns@.map_values(|t: crate::text::Text| t@) =~= arg_asnmap_asns(mv)); }
    let mut col_countries: Vec<crate::text::Text> = Vec::new();
    let mut i: usize = 0;
    while i < m.len()
        invariant
            mv == view_asnmap(m@),
            i <= m@.len(),
            col_countries@.len() == i,
            forall|j: int| 0 <= j < i ==> (#[trigger] col_countries@[j])@ == arg_asnmap_countries(mv)[j],
        decreases m@.len() - i,
    {
        col_countries.push(m[i].1.country.clone());
        i = i + 1;
    }
    proof { assert(col_countries@.map_values(|t: crate::text::Text| t@) =~= arg_asnmap_countries(mv)); }
    let mut col_nets: Vec<crate::text::Text> = Vec::new();
    let mut i: usize = 0;
    while i < m.len()
        invariant
            mv == view_asnmap(m@),
            i <= m@.len(),
            col_nets@.len() == i,
            forall|j: int| 0 <= j < i ==> (#[trigger] col_nets@[j])@ == arg_asnmap_nets(mv)[j],
        decreases m@.len() - i,
    {
        col_nets.push(m[i].1.net.clone());
        i = i + 1;
    }
    proof { assert(col_nets@.map_values(|t: crate::text::Text| t@) =~= arg_asnmap_nets(mv)); }
    let mut col_descs: Vec<crate::text::Text> = Vec::new();
    let mut i: usize = 0;
    while i < m.len()
        invariant
            mv == view_asnmap(m@),
            i <= m@.len(),
            col_descs@.len() == i,
            forall|j: int| 0 <= j < i ==> (#[trigger] col_descs@[j])@ == arg_asnmap_descs(mv)[j],
        decreases m@.len() - i,
    {
        col_descs.push(m[i].1.desc.clone());
        i = i + 1;
    }
    proof { assert(col_descs@.map_values(|t: crate::text::Text| t@) =~= arg_asnmap_descs(mv)); }
    let mut col_lasts: Vec<u64> = Vec::new();
    let mut i: usize = 0;
    while i < m.len()
        invariant
            mv == view_asnmap(m@),
            i <= m@.len(),
            col_lasts@.len() == i,
            forall|j: int| 0 <= j < i ==> (#[trigger] col_lasts@[j]) == arg_asnmap_lasts(mv)[j],
        decreases m@.len() - i,
    {
        col_lasts.push(m[i].1.last_updated);
        i = i + 1;
    }
    proof { assert(col_lasts@ =~= arg_asnmap_lasts(mv)); }
    write_texts(buf, &col_keys);
    write_texts(buf, &col_asns);
    write_texts(buf, &col_countries);
    write_texts(buf, &col_nets);
    write_texts(buf, &col_descs);
    write_u64s(buf, &col_lasts);
    proof { assert(buf@ =~= old(buf)@ + enc_asnmap(mv)); }
}

/// The image of a `ttmap` section's entries.
pub open spec fn view_ttmap(m: Seq<(crate::text::Text, crate::text::Text)>) -> Seq<(Seq<u8>, Seq<u8>)> {
    m.map_values(|e: (crate::text::Text, crate::text::Text)| (e.0@, e.1@))
}

/// Append the encoding of a `ttmap` section.
pub fn write_ttmap(buf: &mut Vec<u8>, m: &Vec<(crate::text::Text, crate::text::Text)>)
    ensures
        final(buf)@ == old(buf)@ + enc_ttmap(view_ttmap(m@)),
{
    proof {
        reveal(enc_ttmap);
    }
    let ghost mv = view_ttmap(m@);
    let mut col_lefts: Vec<crate::text::Text> = Vec::new();
    let mut i: usize = 0;
    while i < m.len()
        invariant
            mv == view_ttmap(m@),
            i <= m@.len(),
            col_lefts@.len() == i,
            forall|j: int| 0 <= j < i ==> (#[trigger] col_lefts@[j])@ == arg_ttmap_lefts(mv)[j],
        decreases m@.len() - i,
    {
        col_lefts.push(m[i].0.clone());
        i = i + 1;
    }
    proof { assert(col_lefts@.map_values(|t: crate::text::Text| t@) =~= arg_ttmap_lefts(mv)); }
    let mut col_rights: Vec<crate::text::Text> = Vec::new();
    let mut i: usize = 0;
    while i < m.len()
        invariant
            mv == view_ttmap(m@),
            i <= m@.len(),
            col_rights@.len() == i,
            forall|j: int| 0 <= j < i ==> (#[trigger] col_rights@[j])@ == arg_ttmap_rights(mv)[j],
        decreases m@.len() - i,
    {
        col_rights.push(m[i].1.clone());
        i = i + 1;
    }
    proof { assert(col_rights@.map_values(|t: crate::text::Text| t@) =~= arg_ttmap_rights(mv)); }
    write_texts(buf, &col_lefts);
    write_texts(buf, &col_rights);
    proof { assert(buf@ =~= old(buf)@ + enc_ttmap(mv)); }
}

/// The image of a `tumap` section's entries.
pub open spec fn view_tumap(m: Seq<(crate::text::Text, u32)>) -> Seq<(Seq<u8>, u32)> {
    m.map_values(|e: (crate::text::Text, u32)| (e.0@, e.1))
}

/// Append the encoding of a `tumap` section.
pub fn write_tumap(buf: &mut Vec<u8>, m: &Vec<(crate::text::Text, u32)>)
    ensures
        final(buf)@ == old(buf)@ + enc_tumap(view_tumap(m@)),
{
    proof {
        reveal(enc_tumap);
    }
    let ghost mv = view_tumap(m@);
    let mut col_keys: Vec<crate::text::Text> = Vec::new();
    let mut i: usize = 0;
    while i < m.len()
        invariant
            mv == view_tumap(m@),
            i <= m@.len(),
            col_keys@.len() == i,
            forall|j: int| 0 <= j < i ==> (#[trigger] col_keys@[j])@ == arg_tumap_keys(mv)[j],
        decreases m@.len() - i,
    {
        col_keys.push(m[i].0.clone());
        i = i + 1;
    }
    proof { assert(col_keys@.map_values(|t: crate::text::Text| t@) =~= arg_tumap_keys(mv)); }
    let mut col_vals: Vec<u64> = Vec::new();
    let mut i: usize = 0;
    while i < m.len()
        invariant
            mv == view_tumap(m@),
            i <= m@.len(),
            col_vals@.len() == i,
            forall|j: int| 0 <= j < i ==> (#[trigger] col_vals@[j]) == arg_tumap_vals(mv)[j],
        decreases m@.len() - i,
    {
        col_vals.push(m[i].1 as u64);
        i = i + 1;
    }
    proof { assert(col_vals@ =~= arg_tumap_vals(mv)); }
    write_texts(buf, &col_keys);
    write_u64s(buf, &col_vals);
    proof { assert(buf@ =~= old(buf)@ + enc_tumap(mv)); }
}

/// The image of a `utmap` section's entries.
pub open spec fn view_utmap(m: Seq<(u32, crate::text::Text)>) -> Seq<(u32, Seq<u8>)> {
    m.map_values(|e: (u32, crate::text::Text)| (e.0, e.1@))
}

/// Append the encoding of a `utmap` section.
pub fn write_utmap(buf: &mut Vec<u8>, m: &Vec<(u32, crate::text::Text)>)
    ensures
        final(buf)@ == old(buf)@ + enc_utmap(view_utmap(m@)),
{
    proof {
        reveal(enc_utmap);
    }
    let ghost mv = view_utmap(m@);
    let mut col_keys: Vec<u64> = Vec::new();
    let mut i: usize = 0;
    while i < m.len()
        invariant
            mv == view_utmap(m@),
            i <= m@.len(),
            col_keys@.len() == i,
            forall|j: int| 0 <= j < i ==> (#[trigger] col_keys@[j]) == arg_utmap_keys(mv)[j],
        decreases m@.len() - i,
    {
        col_keys.push(m[i].0 as u64);
        i = i + 1;
    }
    proof { assert(col_keys@ =~= arg_utmap_keys(mv)); }
    let mut col_vals: Vec<crate::text::Text> = Vec::new();
    let mut i: usize = 0;
    while i < m.len()
        invariant
            mv == view_utmap(m@),
            i <= m@.len(),
            col_vals@.len() == i,
            forall|j: int| 0 <= j < i ==> (#[trigger] col_vals@[j])@ == arg_utmap_vals(mv)[j],
        decreases m@.len() - i,
    {
        col_vals.push(m[i].1.clone());
        i = i + 1;
    }
    proof { assert(col_vals@.map_values(|t: crate::text::Text| t@) =~= arg_utmap_vals(mv)); }
    write_u64s(buf, &col_keys);
    write_texts(buf, &col_vals);
    proof { assert(buf@ =~= old(buf)@ + enc_utmap(mv)); }
}

/// The image of a `citymap` section's entries.
pub open spec fn view_citymap(m: Seq<(u32, crate::state::GeoCity)>) -> Seq<(u32, crate::state::GeoCityV)> {
    m.map_values(|e: (u32, crate::state::GeoCity)| (e.0, e.1@))
}

/// Append the encoding of a `citymap` section.
pub fn write_citymap(buf: &mut Vec<u8>, m: &Vec<(u32, crate::state::GeoCity)>)
    ensures
        final(buf)@ == old(buf)@ + enc_citymap(view_citymap(m@)),
{
    proof {
        reveal(enc_citymap);
    }
    let ghost mv = view_citymap(m@);
    let mut col_keys: Vec<u64> = Vec::new();
    let mut i: usize = 0;
    while i < m.len()
        invariant
            mv == view_citymap(m@),
            i <= m@.len(),
            col_keys@.len() == i,
            forall|j: int| 0 <= j < i ==> (#[trigger] col_keys@[j]) == arg_citymap_keys(mv)[j],
        decreases m@.len() - i,
    {
        col_keys.push(m[i].0 as u64);
        i = i + 1;
    }
    proof { assert(col_keys@ =~= arg_citymap_keys(mv)); }
    let mut col_geonames: Vec<u64> = Vec::new();
    let mut i: usize = 0;
    while i < m.len()
        invariant
            mv == view_citymap(m@),
            i <= m@.len(),
            col_geonames@.len() == i,
            forall|j: int| 0 <= j < i ==> (#[trigger] col_geonames@[j]) == arg_citymap_geonames(mv)[j],
        decreases m@.len() - i,
    {
        col_geonames.push(m[i].1.geoname_id as u64);
        i = i + 1;
    }
    proof { assert(col_geonames@ =~= arg_citymap_geonames(mv)); }
    let mut col_tags: Vec<u64> = Vec::new();
    let mut i: usize = 0;
    while i < m.len()
        invariant
            mv == view_citymap(m@),
            i <= m@.len(),
            col_tags@.len() == i,
            forall|j: int| 0 <= j < i ==> (#[trigger] col_tags@[j]) == arg_citymap_tags(mv)[j],
        decreases m@.len() - i,
    {
        col_tags.push(match &m[i].1.name { Some(_) => 1u64, None => 0u64 });
        i = i + 1;
    }
    proof { assert(col_tags@ =~= arg_citymap_tags(mv)); }
    let mut col_names: Vec<crate::text::Text> = Vec::new();
    let mut i: usize = 0;
    while i < m.len()
        invariant
            mv == view_citymap(m@),
            i <= m@.len(),
            col_names@.len() == i,
            forall|j: int| 0 <= j < i ==> (#[trigger] col_names@[j])@ == arg_citymap_names(mv)[j],
        decreases m@.len() - i,
    {
        col_names.push(match &m[i].1.name { Some(t) => t.clone(), None => crate::text::Text::new() });
        i = i + 1;
    }
    proof { assert(col_names@.map_values(|t: crate::text::Text| t@) =~= arg_citymap_names(mv)); }
    let mut col_countries: Vec<u64> = Vec::new();
    let mut i: usize = 0;
    while i < m.len()
        invariant
            mv == view_citymap(m@),
            i <= m@.len(),
            col_countries@.len() == i,
            forall|j: int| 0 <= j < i ==> (#[trigger] col_countries@[j]) == arg_citymap_countries(mv)[j],
        decreases m@.len() - i,
    {
        col_countries.push(m[i].1.country as u64);
        i = i + 1;
    }
    proof { assert(col_countries@ =~= arg_citymap_countries(mv)); }
    let mut col_continents: Vec<u64> = Vec::new();
    let mut i: usize = 0;
    while i < m.len()
        invariant
            mv == view_citymap(m@),
            i <= m@.len(),
            col_continents@.len() == i,
            forall|j: int| 0 <= j < i ==> (#[trigger] col_continents@[j]) == arg_citymap_continents(mv)[j],
        decreases m@.len() - i,
    {
        col_continents.push(m[i].1.continent as u64);
        i = i + 1;
    }
    proof { assert(col_continents@ =~= arg_citymap_continents(mv)); }
    let mut col_lasts: Vec<u64> = Vec::new();
    let mut i: usize = 0;
    while i < m.len()
        invariant
            mv == view_citymap(m@),
            i <= m@.len(),
            col_lasts@.len() == i,
            forall|j: int| 0 <= j < i ==> (#[trigger] col_lasts@[j]) == arg_citymap_lasts(mv)[j],
        decreases m@.len() - i,
    {
        col_lasts.push(m[i].1.last_updated);
        i = i + 1;
    }
    proof { assert(col_lasts@ =~= arg_citymap_lasts(mv)); }
    write_u64s(buf, &col_keys);
    write_u64s(buf, &col_geonames);
    write_u64s(buf, &col_tags);
    write_texts(buf, &col_names);
    write_u64s(buf, &col_countries);
    write_u64s(buf, &col_continents);
    write_u64s(buf, &col_lasts);
    proof { assert(buf@ =~= old(buf)@ + enc_citymap(mv)); }
}

/// The image of a `countrymap` section's entries.
pub open spec fn view_countrymap(m: Seq<(u32, crate::state::GeoCountry)>) -> Seq<(u32, crate::state::GeoCountryV)> {
    m.map_values(|e: (u32, crate::state::GeoCountry)| (e.0, e.1@))
}

/// Append the encoding of a `countrymap` section.
pub fn write_countrymap(buf: &mut Vec<u8>, m: &Vec<(u32, crate::state::GeoCountry)>)
    ensures
        final(buf)@ == old(buf)@ + enc_countrymap(view_countrymap(m@)),
{
    proof {
        reveal(enc_countrymap);
    }
    let ghost mv = view_countrymap(m@);
    let mut col_keys: Vec<u64> = Vec::new();
    let mut i: usize = 0;
    while i < m.len()
        invariant
            mv == view_countrymap(m@),
            i <= m@.len(),
            col_keys@.len() == i,
            forall|j: int| 0 <= j < i ==> (#[trigger] col_keys@[j]) == arg_countrymap_keys(mv)[j],
        decreases m@.len() - i,
    {
        col_keys.push(m[i].0 as u64);
        i = i + 1;
    }
    proof { assert(col_keys@ =~= arg_countrymap_keys(mv)); }
    let mut col_geonames: Vec<u64> = Vec::new();
    let mut i: usize = 0;
    while i < m.len()
        invariant
            mv == view_countrymap(m@),
            i <= m@.len(),
            col_geonames@.len() == i,
            forall|j: int| 0 <= j < i ==> (#[trigger] col_geonames@[j]) == arg_countrymap_geonames(mv)[j],
        decreases m@.len() - i,
    {
        col_geonames.push(m[i].1.geoname_id as u64);
        i = i + 1;
    }
    proof { assert(col_geonames@ =~= arg_countrymap_geonames(mv)); }
    let mut col_tags: Vec<u64> = Vec::new();
    let mut i: usize = 0;
    while i < m.len()
        invariant
            mv == view_countrymap(m@),
            i <= m@.len(),
            col_tags@.len() == i,
            forall|j: int| 0 <= j < i ==> (#[trigger] col_tags@[j]) == arg_countrymap_tags(mv)[j],
        decreases m@.len() - i,
    {
        col_tags.push(match &m[i].1.name { Some(_) => 1u64, None => 0u64 });
        i = i + 1;
    }
    proof { assert(col_tags@ =~= arg_countrymap_tags(mv)); }
    let mut col_names: Vec<crate::text::Text> = Vec::new();
    let mut i: usize = 0;
    while i < m.len()
        invariant
            mv == view_countrymap(m@),
            i <= m@.len(),
            col_names@.len() == i,
            forall|j: int| 0 <= j < i ==> (#[trigger] col_names@[j])@ == arg_countrymap_names(mv)[j],
        decreases m@.len() - i,
    {
        col_names.push(match &m[i].1.name { Some(t) => t.clone(), None => crate::text::Text::new() });
        i = i + 1;
    }
    proof { assert(col_names@.map_values(|t: crate::text::Text| t@) =~= arg_countrymap_names(mv)); }
    let mut col_eus: Vec<u64> = Vec::new();
    let mut i: usize = 0;
    while i < m.len()
        invariant
            mv == view_countrymap(m@),
            i <= m@.len(),
            col_eus@.len() == i,
            forall|j: int| 0 <= j < i ==> (#[trigger] col_eus@[j]) == arg_countrymap_eus(mv)[j],
        decreases m@.len() - i,
    {
        col_eus.push(match m[i].1.is_in_european_union { None => 0u64, Some(false) => 1u64, Some(true) => 2u64 });
        i = i + 1;
    }
    proof { assert(col_eus@ =~= arg_countrymap_eus(mv)); }
    let mut col_isotags: Vec<u64> = Vec::new();
    let mut i: usize = 0;
    while i < m.len()
        invariant
            mv == view_countrymap(m@),
            i <= m@.len(),
            col_isotags@.len() == i,
            forall|j: int| 0 <= j < i ==> (#[trigger] col_isotags@[j]) == arg_countrymap_isotags(mv)[j],
        decreases m@.len() - i,
    {
        col_isotags.push(match &m[i].1.iso_code { Some(_) => 1u64, None => 0u64 });
        i = i + 1;
    }
    proof { assert(col_isotags@ =~= arg_countrymap_isotags(mv)); }
    let mut col_isos: Vec<crate::text::Text> = Vec::new();
    let mut i: usize = 0;
    while i < m.len()
        invariant
            mv == view_countrymap(m@),
            i <= m@.len(),
            col_isos@.len() == i,
            forall|j: int| 0 <= j < i ==> (#[trigger] col_isos@[j])@ == arg_countrymap_isos(mv)[j],
        decreases m@.len() - i,
    {
        col_isos.push(match &m[i].1.iso_code { Some(t) => t.clone(), None => crate::text::Text::new() });
        i = i + 1;
    }
    proof { assert(col_isos@.map_values(|t: crate::text::Text| t@) =~= arg_countrymap_isos(mv)); }
    let mut col_lasts: Vec<u64> = Vec::new();
    let mut i: usize = 0;
    while i < m.len()
        invariant
            mv == view_countrymap(m@),
            i <= m@.len(),
            col_lasts@.len() == i,
            forall|j: int| 0 <= j < i ==> (#[trigger] col_lasts@[j]) == arg_countrymap_lasts(mv)[j],
        decreases m@.len() - i,
    {
        col_lasts.push(m[i].1.last_updated);
        i = i + 1;
    }
    proof { assert(col_lasts@ =~= arg_countrymap_lasts(mv)); }
    write_u64s(buf, &col_keys);
    write_u64s(buf, &col_geonames);
    write_u64s(buf, &col_tags);
    write_texts(buf, &col_names);
    write_u64s(buf, &col_eus);
    write_u64s(buf, &col_isotags);
    write_texts(buf, &col_isos);
    write_u64s(buf, &col_lasts);
    proof { assert(buf@ =~= old(buf)@ + enc_countrymap(mv)); }
}

/// The image of a `continentmap` section's entries.
pub open spec fn view_continentmap(m: Seq<(u32, crate::state::GeoContinent)>) -> Seq<(u32, crate::state::GeoContinentV)> {
    m.map_values(|e: (u32, crate::state::GeoContinent)| (e.0, e.1@))
}

/// Append the encoding of a `continentmap` section.
pub fn write_continentmap(buf: &mut Vec<u8>, m: &Vec<(u32, crate::state::GeoContinent)>)
    ensures
        final(buf)@ == old(buf)@ + enc_continentmap(view_continentmap(m@)),
{
    proof {
        reveal(enc_continentmap);
    }
    let ghost mv = view_continentmap(m@);
    let mut col_keys: Vec<u64> = Vec::new();
    let mut i: usize = 0;
    while i < m.len()
        invariant
            mv == view_continentmap(m@),
            i <= m@.len(),
            col_keys@.len() == i,
            forall|j: int| 0 <= j < i ==> (#[trigger] col_keys@[j]) == arg_continentmap_keys(mv)[j],
        decreases m@.len() - i,
    {
        col_keys.push(m[i].0 as u64);
        i = i + 1;
    }
    proof { assert(col_keys@ =~= arg_continentmap_keys(mv)); }
    let mut col_geonames: Vec<u64> = Vec::new();
    let mut i: usize = 0;
    while i < m.len()
        invariant
            mv == view_continentmap(m@),
            i <= m@.len(),
            col_geonames@.len() == i,
            forall|j: int| 0 <= j < i ==> (#[trigger] col_geonames@[j]) == arg_continentmap_geonames(mv)[j],
        decreases m@.len() - i,
    {
        col_geonames.push(m[i].1.geoname_id as u64);
        i = i + 1;
    }
    proof { assert(col_geonames@ =~= arg_continentmap_geonames(mv)); }
    let mut col_tags: Vec<u64> = Vec::new();
    let mut i: usize = 0;
    while i < m.len()
        invariant
            mv == view_continentmap(m@),
            i <= m@.len(),
            col_tags@.len() == i,
            forall|j: int| 0 <= j < i ==> (#[trigger] col_tags@[j]) == arg_continentmap_tags(mv)[j],
        decreases m@.len() - i,
    {
        col_tags.push(match &m[i].1.name { Some(_) => 1u64, None => 0u64 });
        i = i + 1;
    }
    proof { assert(col_tags@ =~= arg_continentmap_tags(mv)); }
    let mut col_names: Vec<crate::text::Text> = Vec::new();
    let mut i: usize = 0;
    while i < m.len()
        invariant
            mv == view_continentmap(m@),
            i <= m@.len(),
            col_names@.len() == i,
            forall|j: int| 0 <= j < i ==> (#[trigger] col_names@[j])@ == arg_continentmap_names(mv)[j],
        decreases m@.len() - i,
    {
        col_names.push(match &m[i].1.name { Some(t) => t.clone(), None => crate::text::Text::new() });
        i = i + 1;
    }
    proof { assert(col_names@.map_values(|t: crate::text::Text| t@) =~= arg_continentmap_names(mv)); }
    let mut col_codetags: Vec<u64> = Vec::new();
    let mut i: usize = 0;
    while i < m.len()
        invariant
            mv == view_continentmap(m@),
            i <= m@.len(),
            col_codetags@.len() == i,
            forall|j: int| 0 <= j < i ==> (#[trigger] col_codetags@[j]) == arg_continentmap_codetags(mv)[j],
        decreases m@.len() - i,
    {
        col_codetags.push(match &m[i].1.code { Some(_) => 1u64, None => 0u64 });
        i = i + 1;
    }
    proof { assert(col_codetags@ =~= arg_continentmap_codetags(mv)); }
    let mut col_codes: Vec<crate::text::Text> = Vec::new();
    let mut i: usize = 0;
    while i < m.len()
        invariant
            mv == view_continentmap(m@),
            i <= m@.len(),
            col_codes@.len() == i,
            forall|j: int| 0 <= j < i ==> (#[trigger] col_codes@[j])@ == arg_continentmap_codes(mv)[j],
        decreases m@.len() - i,
    {
        col_codes.push(match &m[i].1.code { Some(t) => t.clone(), None => crate::text::Text::new() });
        i = i + 1;
    }
    proof { assert(col_codes@.map_values(|t: crate::text::Text| t@) =~= arg_continentmap_codes(mv)); }
    let mut col_lasts: Vec<u64> = Vec::new();
    let mut i: usize = 0;
    while i < m.len()
        invariant
            mv == view_continentmap(m@),
            i <= m@.len(),
            col_lasts@.len() == i,
            forall|j: int| 0 <= j < i ==> (#[trigger] col_lasts@[j]) == arg_continentmap_lasts(mv)[j],
        decreases m@.len() - i,
    {
        col_lasts.push(m[i].1.last_updated);
        i = i + 1;
    }
    proof { assert(col_lasts@ =~= arg_continentmap_lasts(mv)); }
    write_u64s(buf, &col_keys);
    write_u64s(buf, &col_geonames);
    write_u64s(buf, &col_tags);
    write_texts(buf, &col_names);
    write_u64s(buf, &col_codetags);
    write_texts(buf, &col_codes);
    write_u64s(buf, &col_lasts);
    proof { assert(buf@ =~= old(buf)@ + enc_continentmap(mv)); }
}

/// Whether every number in the list is at most `mx`.
fn all_le(v: &Vec<u64>, mx: u64) -> (r: bool)
    ensures
        r == (forall|j: int| 0 <= j < v@.len() ==> (#[trigger] v@[j]) <= mx),
{
    let mut i: usize = 0;
    while i < v.len()
        invariant
            i <= v@.len(),
            forall|j: int| 0 <= j < i ==> (#[trigger] v@[j]) <= mx,
        decreases v@.len() - i,
    {
        if v[i] > mx {
            return false;
        }
        i = i + 1;
    }
    true
}

/// Read a `nodemap` section.
#[verifier::rlimit(100)]
#[verifier::spinoff_prover]
pub fn read_nodemap(buf: &Vec<u8>, pos: usize) -> (r: Option<(Vec<(crate::text::Text, crate::state::NodeAddr)>, usize)>)
    ensures
        match r {
            Some(t) => dec_nodemap(buf@, pos as int) == Some((view_nodemap(t.0@), t.1 as int))
                && t.1 <= buf@.len(),
            None => dec_nodemap(buf@, pos as int) is None,
        },
{
    proof {
        reveal(dec_nodemap);
    }
    let (mut col_keys, p_keys) = match read_texts(buf, pos) {
        None => { return None; },
        Some(t) => t,
    };
    let ghost v_keys = col_keys@.map_values(|t: crate::text::Text| t@);
    proof {
        assert(dec_texts(buf@, pos as int)->Some_0.0 =~= v_keys);
        assert(dec_texts(buf@, pos as int) == Some((v_keys, p_keys as int)));
        assert(v_keys.len() == col_keys@.len());
        assert(forall|j: int| 0 <= j < col_keys@.len() ==> (#[trigger] col_keys@[j])@ == v_keys[j]);
    }
    let (mut col_ids, p_ids) = match read_texts(buf, p_keys) {
        None => { return None; },
        Some(t) => t,
    };
    let ghost v_ids = col_ids@.map_values(|t: crate::text::Text| t@);
    proof {
        assert(dec_texts(buf@, p_keys as int)->Some_0.0 =~= v_ids);
        assert(dec_texts(buf@, p_keys as int) == Some((v_ids, p_ids as int)));
        assert(v_ids.len() == col_ids@.len());
        assert(forall|j: int| 0 <= j < col_ids@.len() ==> (#[trigger] col_ids@[j])@ == v_ids[j]);
    }
    let (mut col_ips, p_ips) = match read_texts(buf, p_ids) {
        None => { return None; },
        Some(t) => t,
    };
    let ghost v_ips = col_ips@.map_values(|t: crate::text::Text| t@);
    proof {
        assert(dec_texts(buf@, p_ids as int)->Some_0.0 =~= v_ips);
        assert(dec_texts(buf@, p_ids as int) == Some((v_ips, p_ips as int)));
        assert(v_ips.len() == col_ips@.len());
        assert(forall|j: int| 0 <= j < col_ips@.len() ==> (#[trigger] col_ips@[j])@ == v_ips[j]);
    }
    let (col_ports, p_ports) = match read_u64s(buf, p_ips) {
        None => { return None; },
        Some(t) => t,
    };
    let ghost v_ports = col_ports@;
    if col_ids.len() != col_keys.len() {
        return None;
    }
    if col_ips.len() != col_keys.len() {
        return None;
    }
    if col_ports.len() != col_keys.len() {
        return None;
    }
    let n = col_keys.len();
    let mut out: Vec<(crate::text::Text, crate::state::NodeAddr)> = Vec::new();
    let mut i: usize = 0;
    while i < n
        invariant
            col_keys@.len() == n - i,
            forall|j: int| 0 <= j < n - i ==> (#[trigger] col_keys@[j])@ == v_keys[i + j],
            col_ids@.len() == n - i,
            forall|j: int| 0 <= j < n - i ==> (#[trigger] col_ids@[j])@ == v_ids[i + j],
            col_ips@.len() == n - i,
            forall|j: int| 0 <= j < n - i ==> (#[trigger] col_ips@[j])@ == v_ips[i + j],
            col_ports@ == v_ports,
            v_keys.len() == n,
            v_ids.len() == n,
            v_ips.len() == n,
            v_ports.len() == n,
            i <= n,
            out@.len() == i,
            forall|j: int| 0 <= j < i ==> (#[trigger] out@[j]).0@ == v_keys[j] && out@[j].1@ == (crate::state::NodeAddrV { id: v_ids[j], ip: v_ips[j], port: v_ports[j] }),
        decreases n - i,
    {
        let ghost pre_keys = col_keys@;
        let x_keys = col_keys.remove(0);
        proof {
            assert(x_keys@ == v_keys[i as int]);
            assert forall|j: int| 0 <= j < n - i - 1 implies (#[trigger] col_keys@[j])@ == v_keys[i + 1 + j] by {
                assert(col_keys@[j] == pre_keys[j + 1]);
            }
        }
        let ghost pre_ids = col_ids@;
        let x_ids = col_ids.remove(0);
        proof {
            assert(x_ids@ == v_ids[i as int]);
            assert forall|j: int| 0 <= j < n - i - 1 implies (#[trigger] col_ids@[j])@ == v_ids[i + 1 + j] by {
                assert(col_ids@[j] == pre_ids[j + 1]);
            }
        }
        let ghost pre_ips = col_ips@;
        let x_ips = col_ips.remove(0);
        proof {
            assert(x_ips@ == v_ips[i as int]);
            assert forall|j: int| 0 <= j < n - i - 1 implies (#[trigger] col_ips@[j])@ == v_ips[i + 1 + j] by {
                assert(col_ips@[j] == pre_ips[j + 1]);
            }
        }
        let entry = (x_keys, crate::state::NodeAddr { id: x_ids, ip: x_ips, port: col_ports[i] });
        out.push(entry);
        i = i + 1;
    }
    proof {
        assert(view_nodemap(out@) =~= Seq::new(v_keys.len(), |i: int| (v_keys[i], crate::state::NodeAddrV { id: v_ids[i], ip: v_ips[i], port: v_ports[i] }))) by {
            assert forall|j: int| 0 <= j < n implies view_nodemap(out@)[j] == (Seq::new(v_keys.len(), |i: int| (v_keys[i], crate::state::NodeAddrV { id: v_ids[i], ip: v_ips[i], port: v_ports[i] })))[j] by {}
        }
    }
    Some((out, p_ports))
}

/// Read a `ipasnmap` section.
#[verifier::rlimit(100)]
#[verifier::spinoff_prover]
pub fn read_ipasnmap(buf: &Vec<u8>, pos: usize) -> (r: Option<(Vec<(crate::text::Text, crate::state::IpAsnMapping)>, usize)>)
    ensures
        match r {
            Some(t) => dec_ipasnmap(buf@, pos as int) == Some((view_ipasnmap(t.0@), t.1 as int))
                && t.1 <= buf@.len(),
            None => dec_ipasnmap(buf@, pos as int) is None,
        },
{
    proof {
        reveal(dec_ipasnmap);
    }
    let (mut col_keys, p_keys) = match read_texts(buf, pos) {
        None => { return None; },
        Some(t) => t,
    };
    let ghost v_keys = col_keys@.map_values(|t: crate::text::Text| t@);
    proof {
        assert(dec_texts(buf@, pos as int)->Some_0.0 =~= v_keys);
        assert(dec_texts(buf@, pos as int) == Some((v_keys, p_keys as int)));
        assert(v_keys.len() == col_keys@.len());
        assert(forall|j: int| 0 <= j < col_keys@.len() ==> (#[trigger] col_keys@[j])@ == v_keys[j]);
    }
    let (mut col_asns, p_asns) = match read_texts(buf, p_keys) {
        None => { return None; },
        Some(t) => t,
    };
    let ghost v_asns = col_asns@.map_values(|t: crate::text::Text| t@);
    proof {
        assert(dec_texts(buf@, p_keys as int)->Some_0.0 =~= v_asns);
        assert(dec_texts(buf@, p_keys as int) == Some((v_asns, p_asns as int)));
        assert(v_asns.len() == col_asns@.len());
        assert(forall|j: int| 0 <= j < col_asns@.len() ==> (#[trigger] col_asns@[j])@ == v_asns[j]);
    }
    let (mut col_ranges, p_ranges) = match read_texts(buf, p_asns) {
        None => { return None; },
        Some(t) => t,
    };
    let ghost v_ranges = col_ranges@.map_values(|t: crate::text::Text| t@);
    proof {
        assert(dec_texts(buf@, p_asns as int)->Some_0.0 =~= v_ranges);
        assert(dec_texts(buf@, p_asns as int) == Some((v_ranges, p_ranges as int)));
        assert(v_ranges.len() == col_ranges@.len());
        assert(forall|j: int| 0 <= j < col_ranges@.len() ==> (#[trigger] col_ranges@[j])@ == v_ranges[j]);
    }
    let (mut col_countries, p_countries) = match read_texts(buf, p_ranges) {
        None => { return None; },
        Some(t) => t,
    };
    let ghost v_countries = col_countries@.map_values(|t: crate::text::Text| t@);
    proof {
        assert(dec_texts(buf@, p_ranges as int)->Some_0.0 =~= v_countries);
        assert(dec_texts(buf@, p_ranges as int) == Some((v_countries, p_countries as int)));
        assert(v_countries.len() == col_countries@.len());
        assert(forall|j: int| 0 <= j < col_countries@.len() ==> (#[trigger] col_countries@[j])@ == v_countries[j]);
    }
    let (mut col_networks, p_networks) = match read_texts(buf, p_countries) {
        None => { return None; },
        Some(t) => t,
    };
    let ghost v_networks = col_networks@.map_values(|t: crate::text::Text| t@);
    proof {
        assert(dec_texts(buf@, p_countries as int)->Some_0.0 =~= v_networks);
        assert(dec_texts(buf@, p_countries as int) == Some((v_networks, p_networks as int)));
        assert(v_networks.len() == col_networks@.len());
        assert(forall|j: int| 0 <= j < col_networks@.len() ==> (#[trigger] col_networks@[j])@ == v_networks[j]);
    }
    let (col_lasts, p_lasts) = match read_u64s(buf, p_networks) {
        None => { return None; },
        Some(t) => t,
    };
    let ghost v_lasts = col_lasts@;
    if col_asns.len() != col_keys.len() {
        return None;
    }
    if col_ranges.len() != col_keys.len() {
        return None;
    }
    if col_countries.len() != col_keys.len() {
        return None;
    }
    if col_networks.len() != col_keys.len() {
        return None;
    }
    if col_lasts.len() != col_keys.len() {
        return None;
    }
    let n = col_keys.len();
    let mut out: Vec<(crate::text::Text, crate::state::IpAsnMapping)> = Vec::new();
    let mut i: usize = 0;
    while i < n
        invariant
            col_keys@.len() == n - i,
            forall|j: int| 0 <= j < n - i ==> (#[trigger] col_keys@[j])@ == v_keys[i + j],
            col_asns@.len() == n - i,
            forall|j: int| 0 <= j < n - i ==> (#[trigger] col_asns@[j])@ == v_asns[i + j],
            col_ranges@.len() == n - i,
            forall|j: int| 0 <= j < n - i ==> (#[trigger] col_ranges@[j])@ == v_ranges[i + j],
            col_countries@.len() == n - i,
            forall|j: int| 0 <= j < n - i ==> (#[trigger] col_countries@[j])@ == v_countries[i + j],
            col_networks@.len() == n - i,
            forall|j: int| 0 <= j < n - i ==> (#[trigger] col_networks@[j])@ == v_networks[i + j],
            col_lasts@ == v_lasts,
            v_keys.len() == n,
            v_asns.len() == n,
            v_ranges.len() == n,
            v_countries.len() == n,
            v_networks.len() == n,
            v_lasts.len() == n,
            i <= n,
            out@.len() == i,
            forall|j: int| 0 <= j < i ==> (#[trigger] out@[j]).0@ == v_keys[j] && out@[j].1@ == (crate::state::IpAsnV { asn: v_asns[j], range: v_ranges[j], country: v_countries[j], network: v_networks[j], last_updated: v_lasts[j] }),
        decreases n - i,
    {
        let ghost pre_keys = col_keys@;
        let x_keys = col_keys.remove(0);
        proof {
            assert(x_keys@ == v_keys[i as int]);
            assert forall|j: int| 0 <= j < n - i - 1 implies (#[trigger] col_keys@[j])@ == v_keys[i + 1 + j] by {
                assert(col_keys@[j] == pre_keys[j + 1]);
            }
        }
        let ghost pre_asns = col_asns@;
        let x_asns = col_asns.remove(0);
        proof {
            assert(x_asns@ == v_asns[i as int]);
            assert forall|j: int| 0 <= j < n - i - 1 implies (#[trigger] col_asns@[j])@ == v_asns[i + 1 + j] by {
                assert(col_asns@[j] == pre_asns[j + 1]);
            }
        }
        let ghost pre_ranges = col_ranges@;
        let x_ranges = col_ranges.remove(0);
        proof {
            assert(x_ranges@ == v_ranges[i as int]);
            assert forall|j: int| 0 <= j < n - i - 1 implies (#[trigger] col_ranges@[j])@ == v_ranges[i + 1 + j] by {
                assert(col_ranges@[j] == pre_ranges[j + 1]);
            }
        }
        let ghost pre_countries = col_countries@;
        let x_countries = col_countries.remove(0);
        proof {
            assert(x_countries@ == v_countries[i as int]);
            assert forall|j: int| 0 <= j < n - i - 1 implies (#[trigger] col_countries@[j])@ == v_countries[i + 1 + j] by {
                assert(col_countries@[j] == pre_countries[j + 1]);
            }
        }
        let ghost pre_networks = col_networks@;
        let x_networks = col_networks.remove(0);
        proof {
            assert(x_networks@ == v_networks[i as int]);
            assert forall|j: int| 0 <= j < n - i - 1 implies (#[trigger] col_networks@[j])@ == v_networks[i + 1 + j] by {
                assert(col_networks@[j] == pre_networks[j + 1]);
            }
        }
        let entry = (x_keys, crate::state::IpAsnMapping { asn: x_asns, range: x_ranges, country: x_countries, network: x_networks, last_updated: col_lasts[i] });
        out.push(entry);
        i = i + 1;
    }
    proof {
        assert(view_ipasnmap(out@) =~= Seq::new(v_keys.len(), |i: int| (v_keys[i], crate::state::IpAsnV { asn: v_asns[i], range: v_ranges[i], country: v_countries[i], network: v_networks[i], last_updated: v_lasts[i] }))) by {
            assert forall|j: int| 0 <= j < n implies view_ipasnmap(out@)[j] == (Seq::new(v_keys.len(), |i: int| (v_keys[i], crate::state::IpAsnV { asn: v_asns[i], range: v_ranges[i], country: v_countries[i], network: v_networks[i], last_updated: v_lasts[i] })))[j] by {}
        }
    }
    Some((out, p_lasts))
}

/// Read a `asnmap` section.
#[verifier::rlimit(100)]
#[verifier::spinoff_prover]
pub fn read_asnmap(buf: &Vec<u8>, pos: usize) -> (r: Option<(Vec<(crate::text::Text, crate::state::ASN)>, usize)>)
    ensures
        match r {
            Some(t) => dec_asnmap(buf@, pos as int) == Some((view_asnmap(t.0@), t.1 as int))
                && t.1 <= buf@.len(),
            None => dec_asnmap(buf@, pos as int) is None,
        },
{
    proof {
        reveal(dec_asnmap);
    }
    let (mut col_keys, p_keys) = match read_texts(buf, pos) {
        None => { return None; },
        Some(t) => t,
    };
    let ghost v_keys = col_keys@.map_values(|t: crate::text::Text| t@);
    proof {
        assert(dec_texts(buf@, pos as int)->Some_0.0 =~= v_keys);
        assert(dec_texts(buf@, pos as int) == Some((v_keys, p_keys as int)));
        assert(v_keys.len() == col_keys@.len());
        assert(forall|j: int| 0 <= j < col_keys@.len() ==> (#[trigger] col_keys@[j])@ == v_keys[j]);
    }
    let (mut col_asns, p_asns) = match read_texts(buf, p_keys) {
        None => { return None; },
        Some(t) => t,
    };
    let ghost v_asns = col_asns@.map_values(|t: crate::text::Text| t@);
    proof {
        assert(dec_texts(buf@, p_keys as int)->Some_0.0 =~= v_asns);
        assert(dec_texts(buf@, p_keys as int) == Some((v_asns, p_asns as int)));
        assert(v_asns.len() == col_asns@.len());
        assert(forall|j: int| 0 <= j < col_asns@.len() ==> (#[trigger] col_asns@[j])@ == v_asns[j]);
    }
    let (mut col_countries, p_countries) = match read_texts(buf, p_asns) {
        None => { return None; },
        Some(t) => t,
    };
    let ghost v_countries = col_countries@.map_values(|t: crate::text::Text| t@);
    proof {
        assert(dec_texts(buf@, p_asns as int)->Some_0.0 =~= v_countries);
        assert(dec_texts(buf@, p_asns as int) == Some((v_countries, p_countries as int)));
        assert(v_countries.len() == col_countries@.len());
        assert(forall|j: int| 0 <= j < col_countries@.len() ==> (#[trigger] col_countries@[j])@ == v_countries[j]);
    }
    let (mut col_nets, p_nets) = match read_texts(buf, p_countries) {
        None => { return None; },
        Some(t) => t,
    };
    let ghost v_nets = col_nets@.map_values(|t: crate::text::Text| t@);
    proof {
        assert(dec_texts(buf@, p_countries as int)->Some_0.0 =~= v_nets);
        assert(dec_texts(buf@, p_countries as int) == Some((v_nets, p_nets as int)));
        assert(v_nets.len() == col_nets@.len());
        assert(forall|j: int| 0 <= j < col_nets@.len() ==> (#[trigger] col_nets@[j])@ == v_nets[j]);
    }
    let (mut col_descs, p_descs) = match read_texts(buf, p_nets) {
        None => { return None; },
        Some(t) => t,
    };
    let ghost v_descs = col_descs@.map_values(|t: crate::text::Text| t@);
    proof {
        assert(dec_texts(buf@, p_nets as int)->Some_0.0 =~= v_descs);
        assert(dec_texts(buf@, p_nets as int) == Some((v_descs, p_descs as int)));
        assert(v_descs.len() == col_descs@.len());
        assert(forall|j: int| 0 <= j < col_descs@.len() ==> (#[trigger] col_descs@[j])@ == v_descs[j]);
    }
    let (col_lasts, p_lasts) = match read_u64s(buf, p_descs) {
        None => { return None; },
        Some(t) => t,
    };
    let ghost v_lasts = col_lasts@;
    if col_asns.len() != col_keys.len() {
        return None;
    }
    if col_countries.len() != col_keys.len() {
        return None;
    }
    if col_nets.len() != col_keys.len() {
        return None;
    }
    if col_descs.len() != col_keys.len() {
        return None;
    }
    if col_lasts.len() != col_keys.len() {
        return None;
    }
    let n = col_keys.len();
    let mut out: Vec<(crate::text::Text, crate::state::ASN)> = Vec::new();
    let mut i: usize = 0;
    while i < n
        invariant
            col_keys@.len() == n - i,
            forall|j: int| 0 <= j < n - i ==> (#[trigger] col_keys@[j])@ == v_keys[i + j],
            col_asns@.len() == n - i,
            forall|j: int| 0 <= j < n - i ==> (#[trigger] col_asns@[j])@ == v_asns[i + j],
            col_countries@.len() == n - i,
            forall|j: int| 0 <= j < n - i ==> (#[trigger] col_countries@[j])@ == v_countries[i + j],
            col_nets@.len() == n - i,
            forall|j: int| 0 <= j < n - i ==> (#[trigger] col_nets@[j])@ == v_nets[i + j],
            col_descs@.len() == n - i,
            forall|j: int| 0 <= j < n - i ==> (#[trigger] col_descs@[j])@ == v_descs[i + j],
            col_lasts@ == v_lasts,
            v_keys.len() == n,
            v_asns.len() == n,
            v_countries.len() == n,
            v_nets.len() == n,
            v_descs.len() == n,
            v_lasts.len() == n,
            i <= n,
            out@.len() == i,
            forall|j: int| 0 <= j < i ==> (#[trigger] out@[j]).0@ == v_keys[j] && out@[j].1@ == (crate::state::ASNV { asn: v_asns[j], country: v_countries[j], net: v_nets[j], desc: v_descs[j], last_updated: v_lasts[j] }),
        decreases n - i,
    {
        let ghost pre_keys = col_keys@;
        let x_keys = col_keys.remove(0);
        proof {
            assert(x_keys@ == v_keys[i as int]);
            assert forall|j: int| 0 <= j < n - i - 1 implies (#[trigger] col_keys@[j])@ == v_keys[i + 1 + j] by {
                assert(col_keys@[j] == pre_keys[j + 1]);
            }
        }
        let ghost pre_asns = col_asns@;
        let x_asns = col_asns.remove(0);
        proof {
            assert(x_asns@ == v_asns[i as int]);
            assert forall|j: int| 0 <= j < n - i - 1 implies (#[trigger] col_asns@[j])@ == v_asns[i + 1 + j] by {
                assert(col_asns@[j] == pre_asns[j + 1]);
            }
        }
        let ghost pre_countries = col_countries@;
        let x_countries = col_countries.remove(0);
        proof {
            assert(x_countries@ == v_countries[i as int]);
            assert forall|j: int| 0 <= j < n - i - 1 implies (#[trigger] col_countries@[j])@ == v_countries[i + 1 + j] by {
                assert(col_countries@[j] == pre_countries[j + 1]);
            }
        }
        let ghost pre_nets = col_nets@;
        let x_nets = col_nets.remove(0);
        proof {
            assert(x_nets@ == v_nets[i as int]);
            assert forall|j: int| 0 <= j < n - i - 1 implies (#[trigger] col_nets@[j])@ == v_nets[i + 1 + j] by {
                assert(col_nets@[j] == pre_nets[j + 1]);
            }
        }
        let ghost pre_descs = col_descs@;
        let x_descs = col_descs.remove(0);
        proof {
            assert(x_descs@ == v_descs[i as int]);
            assert forall|j: int| 0 <= j < n - i - 1 implies (#[trigger] col_descs@[j])@ == v_descs[i + 1 + j] by {
                assert(col_descs@[j] == pre_descs[j + 1]);
            }
        }
        let entry = (x_keys, crate::state::ASN { asn: x_asns, country: x_countries, net: x_nets, desc: x_descs, last_updated: col_lasts[i] });
        out.push(entry);
        i = i + 1;
    }
    proof {
        assert(view_asnmap(out@) =~= Seq::new(v_keys.len(), |i: int| (v_keys[i], crate::state::ASNV { asn: v_asns[i], country: v_countries[i], net: v_nets[i], desc: v_descs[i], last_updated: v_lasts[i] }))) by {
            assert forall|j: int| 0 <= j < n implies view_asnmap(out@)[j] == (Seq::new(v_keys.len(), |i: int| (v_keys[i], crate::state::ASNV { asn: v_asns[i], country: v_countries[i], net: v_nets[i], desc: v_descs[i], last_updated: v_lasts[i] })))[j] by {}
        }
    }
    Some((out, p_lasts))
}

/// Read a `ttmap` section.
#[verifier::rlimit(100)]
#[verifier::spinoff_prover]
pub fn read_ttmap(buf: &Vec<u8>, pos: usize) -> (r: Option<(Vec<(crate::text::Text, crate::text::Text)>, usize)>)
    ensures
        match r {
            Some(t) => dec_ttmap(buf@, pos as int) == Some((view_ttmap(t.0@), t.1 as int))
                && t.1 <= buf@.len(),
            None => dec_ttmap(buf@, pos as int) is None,
        },
{
    proof {
        reveal(dec_ttmap);
    }
    let (mut col_lefts, p_lefts) = match read_texts(buf, pos) {
        None => { return None; },
        Some(t) => t,
    };
    let ghost v_lefts = col_lefts@.map_values(|t: crate::text::Text| t@);
    proof {
        assert(dec_texts(buf@, pos as int)->Some_0.0 =~= v_lefts);
        assert(dec_texts(buf@, pos as int) == Some((v_lefts, p_lefts as int)));
        assert(v_lefts.len() == col_lefts@.len());
        assert(forall|j: int| 0 <= j < col_lefts@.len() ==> (#[trigger] col_lefts@[j])@ == v_lefts[j]);
    }
    let (mut col_rights, p_rights) = match read_texts(buf, p_lefts) {
        None => { return None; },
        Some(t) => t,
    };
    let ghost v_rights = col_rights@.map_values(|t: crate::text::Text| t@);
    proof {
        assert(dec_texts(buf@, p_lefts as int)->Some_0.0 =~= v_rights);
        assert(dec_texts(buf@, p_lefts as int) == Some((v_rights, p_rights as int)));
        assert(v_rights.len() == col_rights@.len());
        assert(forall|j: int| 0 <= j < col_rights@.len() ==> (#[trigger] col_rights@[j])@ == v_rights[j]);
    }
    if col_rights.len() != col_lefts.len() {
        return None;
    }
    let n = col_lefts.len();
    let mut out: Vec<(crate::text::Text, crate::text::Text)> = Vec::new();
    let mut i: usize = 0;
    while i < n
        invariant
            col_lefts@.len() == n - i,
            forall|j: int| 0 <= j < n - i ==> (#[trigger] col_lefts@[j])@ == v_lefts[i + j],
            col_rights@.len() == n - i,
            forall|j: int| 0 <= j < n - i ==> (#[trigger] col_rights@[j])@ == v_rights[i + j],
            v_lefts.len() == n,
            v_rights.len() == n,
            i <= n,
            out@.len() == i,
            forall|j: int| 0 <= j < i ==> (#[trigger] out@[j]).0@ == v_lefts[j] && out@[j].1@ == v_rights[j],
        decreases n - i,
    {
        let ghost pre_lefts = col_lefts@;
        let x_lefts = col_lefts.remove(0);
        proof {
            assert(x_lefts@ == v_lefts[i as int]);
            assert forall|j: int| 0 <= j < n - i - 1 implies (#[trigger] col_lefts@[j])@ == v_lefts[i + 1 + j] by {
                assert(col_lefts@[j] == pre_lefts[j + 1]);
            }
        }
        let ghost pre_rights = col_rights@;
        let x_rights = col_rights.remove(0);
        proof {
            assert(x_rights@ == v_rights[i as int]);
            assert forall|j: int| 0 <= j < n - i - 1 implies (#[trigger] col_rights@[j])@ == v_rights[i + 1 + j] by {
                assert(col_rights@[j] == pre_rights[j + 1]);
            }
        }
        let entry = (x_lefts, x_rights);
        out.push(entry);
        i = i + 1;
    }
    proof {
        assert(view_ttmap(out@) =~= Seq::new(v_lefts.len(), |i: int| (v_lefts[i], v_rights[i]))) by {
            assert forall|j: int| 0 <= j < n implies view_ttmap(out@)[j] == (Seq::new(v_lefts.len(), |i: int| (v_lefts[i], v_rights[i])))[j] by {}
        }
    }
    Some((out, p_rights))
}

/// Read a `tumap` section.
#[verifier::rlimit(100)]
#[verifier::spinoff_prover]
pub fn read_tumap(buf: &Vec<u8>, pos: usize) -> (r: Option<(Vec<(crate::text::Text, u32)>, usize)>)
    ensures
        match r {
            Some(t) => dec_tumap(buf@, pos as int) == Some((view_tumap(t.0@), t.1 as int))
                && t.1 <= buf@.len(),
            None => dec_tumap(buf@, pos as int) is None,
        },
{
    proof {
        reveal(dec_tumap);
    }
    let (mut col_keys, p_keys) = match read_texts(buf, pos) {
        None => { return None; },
        Some(t) => t,
    };
    let ghost v_keys = col_keys@.map_values(|t: crate::text::Text| t@);
    proof {
        assert(dec_texts(buf@, pos as int)->Some_0.0 =~= v_keys);
        assert(dec_texts(buf@, pos as int) == Some((v_keys, p_keys as int)));
        assert(v_keys.len() == col_keys@.len());
        assert(forall|j: int| 0 <= j < col_keys@.len() ==> (#[trigger] col_keys@[j])@ == v_keys[j]);
    }
    let (col_vals, p_vals) = match read_u64s(buf, p_keys) {
        None => { return None; },
        Some(t) => t,
    };
    let ghost v_vals = col_vals@;
    if col_vals.len() != col_keys.len() {
        return None;
    }
    if !all_le(&col_vals, 0xffff_ffff) {
        return None;
    }
    let n = col_keys.len();
    let mut out: Vec<(crate::text::Text, u32)> = Vec::new();
    let mut i: usize = 0;
    while i < n
        invariant
            col_keys@.len() == n - i,
            forall|j: int| 0 <= j < n - i ==> (#[trigger] col_keys@[j])@ == v_keys[i + j],
            col_vals@ == v_vals,
            v_keys.len() == n,
            v_vals.len() == n,
            forall|j: int| 0 <= j < v_vals.len() ==> (#[trigger] v_vals[j]) <= 0xffff_ffff,
            i <= n,
            out@.len() == i,
            forall|j: int| 0 <= j < i ==> (#[trigger] out@[j]).0@ == v_keys[j] && out@[j].1 == v_vals[j] as u32,
        decreases n - i,
    {
        let ghost pre_keys = col_keys@;
        let x_keys = col_keys.remove(0);
        proof {
            assert(x_keys@ == v_keys[i as int]);
            assert forall|j: int| 0 <= j < n - i - 1 implies (#[trigger] col_keys@[j])@ == v_keys[i + 1 + j] by {
                assert(col_keys@[j] == pre_keys[j + 1]);
            }
        }
        let entry = (x_keys, col_vals[i] as u32);
        out.push(entry);
        i = i + 1;
    }
    proof {
        assert(view_tumap(out@) =~= Seq::new(v_keys.len(), |i: int| (v_keys[i], v_vals[i] as u32))) by {
            assert forall|j: int| 0 <= j < n implies view_tumap(out@)[j] == (Seq::new(v_keys.len(), |i: int| (v_keys[i], v_vals[i] as u32)))[j] by {}
        }
    }
    Some((out, p_vals))
}

/// Read a `utmap` section.
#[verifier::rlimit(100)]
#[verifier::spinoff_prover]
pub fn read_utmap(buf: &Vec<u8>, pos: usize) -> (r: Option<(Vec<(u32, crate::text::Text)>, usize)>)
    ensures
        match r {
            Some(t) => dec_utmap(buf@, pos as int) == Some((view_utmap(t.0@), t.1 as int))
                && t.1 <= buf@.len(),
            None => dec_utmap(buf@, pos as int) is None,
        },
{
    proof {
        reveal(dec_utmap);
    }
    let (col_keys, p_keys) = match read_u64s(buf, pos) {
        None => { return None; },
        Some(t) => t,
    };
    let ghost v_keys = col_keys@;
    let (mut col_vals, p_vals) = match read_texts(buf, p_keys) {
        None => { return None; },
        Some(t) => t,
    };
    let ghost v_vals = col_vals@.map_values(|t: crate::text::Text| t@);
    proof {
        assert(dec_texts(buf@, p_keys as int)->Some_0.0 =~= v_vals);
        assert(dec_texts(buf@, p_keys as int) == Some((v_vals, p_vals as int)));
        assert(v_vals.len() == col_vals@.len());
        assert(forall|j: int| 0 <= j < col_vals@.len() ==> (#[trigger] col_vals@[j])@ == v_vals[j]);
    }
    if col_vals.len() != col_keys.len() {
        return None;
    }
    if !all_le(&col_keys, 0xffff_ffff) {
        return None;
    }
    let n = col_keys.len();
    let mut out: Vec<(u32, crate::text::Text)> = Vec::new();
    let mut i: usize = 0;
    while i < n
        invariant
            col_vals@.len() == n - i,
            forall|j: int| 0 <= j < n - i ==> (#[trigger] col_vals@[j])@ == v_vals[i + j],
            col_keys@ == v_keys,
            v_keys.len() == n,
            v_vals.len() == n,
            forall|j: int| 0 <= j < v_keys.len() ==> (#[trigger] v_keys[j]) <= 0xffff_ffff,
            i <= n,
            out@.len() == i,
            forall|j: int| 0 <= j < i ==> (#[trigger] out@[j]).0 == v_keys[j] as u32 && out@[j].1@ == v_vals[j],
        decreases n - i,
    {
        let ghost pre_vals = col_vals@;
        let x_vals = col_vals.remove(0);
        proof {
            assert(x_vals@ == v_vals[i as int]);
            assert forall|j: int| 0 <= j < n - i - 1 implies (#[trigger] col_vals@[j])@ == v_vals[i + 1 + j] by {
                assert(col_vals@[j] == pre_vals[j + 1]);
            }
        }
        let entry = (col_keys[i] as u32, x_vals);
        out.push(entry);
        i = i + 1;
    }
    proof {
        assert(view_utmap(out@) =~= Seq::new(v_keys.len(), |i: int| (v_keys[i] as u32, v_vals[i]))) by {
            assert forall|j: int| 0 <= j < n implies view_utmap(out@)[j] == (Seq::new(v_keys.len(), |i: int| (v_keys[i] as u32, v_vals[i])))[j] by {}
        }
    }
    Some((out, p_vals))
}

/// Read a `citymap` section.
#[verifier::rlimit(100)]
#[verifier::spinoff_prover]
pub fn read_citymap(buf: &Vec<u8>, pos: usize) -> (r: Option<(Vec<(u32, crate::state::GeoCity)>, usize)>)
    ensures
        match r {
            Some(t) => dec_citymap(buf@, pos as int) == Some((view_citymap(t.0@), t.1 as int))
                && t.1 <= buf@.len(),
            None => dec_citymap(buf@, pos as int) is None,
        },
{
    proof {
        reveal(dec_citymap);
    }
    let (col_keys, p_keys) = match read_u64s(buf, pos) {
        None => { return None; },
        Some(t) => t,
    };
    let ghost v_keys = col_keys@;
    let (col_geonames, p_geonames) = match read_u64s(buf, p_keys) {
        None => { return None; },
        Some(t) => t,
    };
    let ghost v_geonames = col_geonames@;
    let (col_tags, p_tags) = match read_u64s(buf, p_geonames) {
        None => { return None; },
        Some(t) => t,
    };
    let ghost v_tags = col_tags@;
    let (mut col_names, p_names) = match read_texts(buf, p_tags) {
        None => { return None; },
        Some(t) => t,
    };
    let ghost v_names = col_names@.map_values(|t: crate::text::Text| t@);
    proof {
        assert(dec_texts(buf@, p_tags as int)->Some_0.0 =~= v_names);
        assert(dec_texts(buf@, p_tags as int) == Some((v_names, p_names as int)));
        assert(v_names.len() == col_names@.len());
        assert(forall|j: int| 0 <= j < col_names@.len() ==> (#[trigger] col_names@[j])@ == v_names[j]);
    }
    let (col_countries, p_countries) = match read_u64s(buf, p_names) {
        None => { return None; },
        Some(t) => t,
    };
    let ghost v_countries = col_countries@;
    let (col_continents, p_continents) = match read_u64s(buf, p_countries) {
        None => { return None; },
        Some(t) => t,
    };
    let ghost v_continents = col_continents@;
    let (col_lasts, p_lasts) = match read_u64s(buf, p_continents) {
        None => { return None; },
        Some(t) => t,
    };
    let ghost v_lasts = col_lasts@;
    if col_geonames.len() != col_keys.len() {
        return None;
    }
    if col_tags.len() != col_keys.len() {
        return None;
    }
    if col_names.len() != col_keys.len() {
        return None;
    }
    if col_countries.len() != col_keys.len() {
        return None;
    }
    if col_continents.len() != col_keys.len() {
        return None;
    }
    if col_lasts.len() != col_keys.len() {
        return None;
    }
    if !all_le(&col_keys, 0xffff_ffff) {
        return None;
    }
    if !all_le(&col_geonames, 0xffff_ffff) {
        return None;
    }
    if !all_le(&col_tags, 1) {
        return None;
    }
    if !all_le(&col_countries, 0xffff_ffff) {
        return None;
    }
    if !all_le(&col_continents, 0xffff_ffff) {
        return None;
    }
    let n = col_keys.len();
    let mut out: Vec<(u32, crate::state::GeoCity)> = Vec::new();
    let mut i: usize = 0;
    while i < n
        invariant
            col_names@.len() == n - i,
            forall|j: int| 0 <= j < n - i ==> (#[trigger] col_names@[j])@ == v_names[i + j],
            col_keys@ == v_keys,
            col_geonames@ == v_geonames,
            col_tags@ == v_tags,
            col_countries@ == v_countries,
            col_continents@ == v_continents,
            col_lasts@ == v_lasts,
            v_keys.len() == n,
            v_geonames.len() == n,
            v_tags.len() == n,
            v_names.len() == n,
            v_countries.len() == n,
            v_continents.len() == n,
            v_lasts.len() == n,
            forall|j: int| 0 <= j < v_keys.len() ==> (#[trigger] v_keys[j]) <= 0xffff_ffff,
            forall|j: int| 0 <= j < v_geonames.len() ==> (#[trigger] v_geonames[j]) <= 0xffff_ffff,
            forall|j: int| 0 <= j < v_tags.len() ==> (#[trigger] v_tags[j]) <= 1,
            forall|j: int| 0 <= j < v_countries.len() ==> (#[trigger] v_countries[j]) <= 0xffff_ffff,
            forall|j: int| 0 <= j < v_continents.len() ==> (#[trigger] v_continents[j]) <= 0xffff_ffff,
            i <= n,
            out@.len() == i,
            forall|j: int| 0 <= j < i ==> (#[trigger] out@[j]).0 == v_keys[j] as u32 && out@[j].1@ == (crate::state::GeoCityV { geoname_id: v_geonames[j] as u32, name: if v_tags[j] == 1 { Some(v_names[j]) } else { None }, country: v_countries[j] as u32, continent: v_continents[j] as u32, last_updated: v_lasts[j] }),
        decreases n - i,
    {
        let ghost pre_names = col_names@;
        let x_names = col_names.remove(0);
        proof {
            assert(x_names@ == v_names[i as int]);
            assert forall|j: int| 0 <= j < n - i - 1 implies (#[trigger] col_names@[j])@ == v_names[i + 1 + j] by {
                assert(col_names@[j] == pre_names[j + 1]);
            }
        }
        let name = if col_tags[i] == 1 { Some(x_names) } else { None };
        let entry = (col_keys[i] as u32, crate::state::GeoCity { geoname_id: col_geonames[i] as u32, name, country: col_countries[i] as u32, continent: col_continents[i] as u32, last_updated: col_lasts[i] });
        out.push(entry);
        i = i + 1;
    }
    proof {
        assert(view_citymap(out@) =~= Seq::new(v_keys.len(), |i: int| (v_keys[i] as u32, crate::state::GeoCityV { geoname_id: v_geonames[i] as u32, name: if v_tags[i] == 1 { Some(v_names[i]) } else { None }, country: v_countries[i] as u32, continent: v_continents[i] as u32, last_updated: v_lasts[i] }))) by {
            assert forall|j: int| 0 <= j < n implies view_citymap(out@)[j] == (Seq::new(v_keys.len(), |i: int| (v_keys[i] as u32, crate::state::GeoCityV { geoname_id: v_geonames[i] as u32, name: if v_tags[i] == 1 { Some(v_names[i]) } else { None }, country: v_countries[i] as u32, continent: v_continents[i] as u32, last_updated: v_lasts[i] })))[j] by {}
        }
    }
    Some((out, p_lasts))
}

/// Read a `countrymap` section.
#[verifier::rlimit(100)]
#[verifier::spinoff_prover]
pub fn read_countrymap(buf: &Vec<u8>, pos: usize) -> (r: Option<(Vec<(u32, crate::state::GeoCountry)>, usize)>)
    ensures
        match r {
            Some(t) => dec_countrymap(buf@, pos as int) == Some((view_countrymap(t.0@), t.1 as int))
                && t.1 <= buf@.len(),
            None => dec_countrymap(buf@, pos as int) is None,
        },
{
    proof {
        reveal(dec_countrymap);
    }
    let (col_keys, p_keys) = match read_u64s(buf, pos) {
        None => { return None; },
        Some(t) => t,
    };
    let ghost v_keys = col_keys@;
    let (col_geonames, p_geonames) = match read_u64s(buf, p_keys) {
        None => { return None; },
        Some(t) => t,
    };
    let ghost v_geonames = col_geonames@;
    let (col_tags, p_tags) = match read_u64s(buf, p_geonames) {
        None => { return None; },
        Some(t) => t,
    };
    let ghost v_tags = col_tags@;
    let (mut col_names, p_names) = match read_texts(buf, p_tags) {
        None => { return None; },
        Some(t) => t,
    };
    let ghost v_names = col_names@.map_values(|t: crate::text::Text| t@);
    proof {
        assert(dec_texts(buf@, p_tags as int)->Some_0.0 =~= v_names);
        assert(dec_texts(buf@, p_tags as int) == Some((v_names, p_names as int)));
        assert(v_names.len() == col_names@.len());
        assert(forall|j: int| 0 <= j < col_names@.len() ==> (#[trigger] col_names@[j])@ == v_names[j]);
    }
    let (col_eus, p_eus) = match read_u64s(buf, p_names) {
        None => { return None; },
        Some(t) => t,
    };
    let ghost v_eus = col_eus@;
    let (col_isotags, p_isotags) = match read_u64s(buf, p_eus) {
        None => { return None; },
        Some(t) => t,
    };
    let ghost v_isotags = col_isotags@;
    let (mut col_isos, p_isos) = match read_texts(buf, p_isotags) {
        None => { return None; },
        Some(t) => t,
    };
    let ghost v_isos = col_isos@.map_values(|t: crate::text::Text| t@);
    proof {
        assert(dec_texts(buf@, p_isotags as int)->Some_0.0 =~= v_isos);
        assert(dec_texts(buf@, p_isotags as int) == Some((v_isos, p_isos as int)));
        assert(v_isos.len() == col_isos@.len());
        assert(forall|j: int| 0 <= j < col_isos@.len() ==> (#[trigger] col_isos@[j])@ == v_isos[j]);
    }
    let (col_lasts, p_lasts) = match read_u64s(buf, p_isos) {
        None => { return None; },
        Some(t) => t,
    };
    let ghost v_lasts = col_lasts@;
    if col_geonames.len() != col_keys.len() {
        return None;
    }
    if col_tags.len() != col_keys.len() {
        return None;
    }
    if col_names.len() != col_keys.len() {
        return None;
    }
    if col_eus.len() != col_keys.len() {
        return None;
    }
    if col_isotags.len() != col_keys.len() {
        return None;
    }
    if col_isos.len() != col_keys.len() {
        return None;
    }
    if col_lasts.len() != col_keys.len() {
        return None;
    }
    if !all_le(&col_keys, 0xffff_ffff) {
        return None;
    }
    if !all_le(&col_geonames, 0xffff_ffff) {
        return None;
    }
    if !all_le(&col_tags, 1) {
        return None;
    }
    if !all_le(&col_eus, 2) {
        return None;
    }
    if !all_le(&col_isotags, 1) {
        return None;
    }
    let n = col_keys.len();
    let mut out: Vec<(u32, crate::state::GeoCountry)> = Vec::new();
    let mut i: usize = 0;
    while i < n
        invariant
            col_names@.len() == n - i,
            forall|j: int| 0 <= j < n - i ==> (#[trigger] col_names@[j])@ == v_names[i + j],
            col_isos@.len() == n - i,
            forall|j: int| 0 <= j < n - i ==> (#[trigger] col_isos@[j])@ == v_isos[i + j],
            col_keys@ == v_keys,
            col_geonames@ == v_geonames,
            col_tags@ == v_tags,
            col_eus@ == v_eus,
            col_isotags@ == v_isotags,
            col_lasts@ == v_lasts,
            v_keys.len() == n,
            v_geonames.len() == n,
            v_tags.len() == n,
            v_names.len() == n,
            v_eus.len() == n,
            v_isotags.len() == n,
            v_isos.len() == n,
            v_lasts.len() == n,
            forall|j: int| 0 <= j < v_keys.len() ==> (#[trigger] v_keys[j]) <= 0xffff_ffff,
            forall|j: int| 0 <= j < v_geonames.len() ==> (#[trigger] v_geonames[j]) <= 0xffff_ffff,
            forall|j: int| 0 <= j < v_tags.len() ==> (#[trigger] v_tags[j]) <= 1,
            forall|j: int| 0 <= j < v_eus.len() ==> (#[trigger] v_eus[j]) <= 2,
            forall|j: int| 0 <= j < v_isotags.len() ==> (#[trigger] v_isotags[j]) <= 1,
            i <= n,
            out@.len() == i,
            forall|j: int| 0 <= j < i ==> (#[trigger] out@[j]).0 == v_keys[j] as u32 && out@[j].1@ == (crate::state::GeoCountryV { geoname_id: v_geonames[j] as u32, name: if v_tags[j] == 1 { Some(v_names[j]) } else { None }, is_in_european_union: if v_eus[j] == 0 { None } else { Some(v_eus[j] == 2) }, iso_code: if v_isotags[j] == 1 { Some(v_isos[j]) } else { None }, last_updated: v_lasts[j] }),
        decreases n - i,
    {
        let ghost pre_names = col_names@;
        let x_names = col_names.remove(0);
        proof {
            assert(x_names@ == v_names[i as int]);
            assert forall|j: int| 0 <= j < n - i - 1 implies (#[trigger] col_names@[j])@ == v_names[i + 1 + j] by {
                assert(col_names@[j] == pre_names[j + 1]);
            }
        }
        let ghost pre_isos = col_isos@;
        let x_isos = col_isos.remove(0);
        proof {
            assert(x_isos@ == v_isos[i as int]);
            assert forall|j: int| 0 <= j < n - i - 1 implies (#[trigger] col_isos@[j])@ == v_isos[i + 1 + j] by {
                assert(col_isos@[j] == pre_isos[j + 1]);
            }
        }
        let name = if col_tags[i] == 1 { Some(x_names) } else { None };
        let iso_code = if col_isotags[i] == 1 { Some(x_isos) } else { None };
        let is_in_european_union = if col_eus[i] == 0 { None } else { Some(col_eus[i] == 2) };
        let entry = (col_keys[i] as u32, crate::state::GeoCountry { geoname_id: col_geonames[i] as u32, name, is_in_european_union, iso_code, last_updated: col_lasts[i] });
        out.push(entry);
        i = i + 1;
    }
    proof {
        assert(view_countrymap(out@) =~= Seq::new(v_keys.len(), |i: int| (v_keys[i] as u32, crate::state::GeoCountryV { geoname_id: v_geonames[i] as u32, name: if v_tags[i] == 1 { Some(v_names[i]) } else { None }, is_in_european_union: if v_eus[i] == 0 { None } else { Some(v_eus[i] == 2) }, iso_code: if v_isotags[i] == 1 { Some(v_isos[i]) } else { None }, last_updated: v_lasts[i] }))) by {
            assert forall|j: int| 0 <= j < n implies view_countrymap(out@)[j] == (Seq::new(v_keys.len(), |i: int| (v_keys[i] as u32, crate::state::GeoCountryV { geoname_id: v_geonames[i] as u32, name: if v_tags[i] == 1 { Some(v_names[i]) } else { None }, is_in_european_union: if v_eus[i] == 0 { None } else { Some(v_eus[i] == 2) }, iso_code: if v_isotags[i] == 1 { Some(v_isos[i]) } else { None }, last_updated: v_lasts[i] })))[j] by {}
        }
    }
    Some((out, p_lasts))
}

/// Read a `continentmap` section.
#[verifier::rlimit(100)]
#[verifier::spinoff_prover]
pub fn read_continentmap(buf: &Vec<u8>, pos: usize) -> (r: Option<(Vec<(u32, crate::state::GeoContinent)>, usize)>)
    ensures
        match r {
            Some(t) => dec_continentmap(buf@, pos as int) == Some((view_continentmap(t.0@), t.1 as int))
                && t.1 <= buf@.len(),
            None => dec_continentmap(buf@, pos as int) is None,
        },
{
    proof {
        reveal(dec_continentmap);
    }
    let (col_keys, p_keys) = match read_u64s(buf, pos) {
        None => { return None; },
        Some(t) => t,
    };
    let ghost v_keys = col_keys@;
    let (col_geonames, p_geonames) = match read_u64s(buf, p_keys) {
        None => { return None; },
        Some(t) => t,
    };
    let ghost v_geonames = col_geonames@;
    let (col_tags, p_tags) = match read_u64s(buf, p_geonames) {
        None => { return None; },
        Some(t) => t,
    };
    let ghost v_tags = col_tags@;
    let (mut col_names, p_names) = match read_texts(buf, p_tags) {
        None => { return None; },
        Some(t) => t,
    };
    let ghost v_names = col_names@.map_values(|t: crate::text::Text| t@);
    proof {
        assert(dec_texts(buf@, p_tags as int)->Some_0.0 =~= v_names);
        assert(dec_texts(buf@, p_tags as int) == Some((v_names, p_names as int)));
        assert(v_names.len() == col_names@.len());
        assert(forall|j: int| 0 <= j < col_names@.len() ==> (#[trigger] col_names@[j])@ == v_names[j]);
    }
    let (col_codetags, p_codetags) = match read_u64s(buf, p_names) {
        None => { return None; },
        Some(t) => t,
    };
    let ghost v_codetags = col_codetags@;
    let (mut col_codes, p_codes) = match read_texts(buf, p_codetags) {
        None => { return None; },
        Some(t) => t,
    };
    let ghost v_codes = col_codes@.map_values(|t: crate::text::Text| t@);
    proof {
        assert(dec_texts(buf@, p_codetags as int)->Some_0.0 =~= v_codes);
        assert(dec_texts(buf@, p_codetags as int) == Some((v_codes, p_codes as int)));
        assert(v_codes.len() == col_codes@.len());
        assert(forall|j: int| 0 <= j < col_codes@.len() ==> (#[trigger] col_codes@[j])@ == v_codes[j]);
    }
    let (col_lasts, p_lasts) = match read_u64s(buf, p_codes) {
        None => { return None; },
        Some(t) => t,
    };
    let ghost v_lasts = col_lasts@;
    if col_geonames.len() != col_keys.len() {
        return None;
    }
    if col_tags.len() != col_keys.len() {
        return None;
    }
    if col_names.len() != col_keys.len() {
        return None;
    }
    if col_codetags.len() != col_keys.len() {
        return None;
    }
    if col_codes.len() != col_keys.len() {
        return None;
    }
    if col_lasts.len() != col_keys.len() {
        return None;
    }
    if !all_le(&col_keys, 0xffff_ffff) {
        return None;
    }
    if !all_le(&col_geonames, 0xffff_ffff) {
        return None;
    }
    if !all_le(&col_tags, 1) {
        return None;
    }
    if !all_le(&col_codetags, 1) {
        return None;
    }
    let n = col_keys.len();
    let mut out: Vec<(u32, crate::state::GeoContinent)> = Vec::new();
    let mut i: usize = 0;
    while i < n
        invariant
            col_names@.len() == n - i,
            forall|j: int| 0 <= j < n - i ==> (#[trigger] col_names@[j])@ == v_names[i + j],
            col_codes@.len() == n - i,
            forall|j: int| 0 <= j < n - i ==> (#[trigger] col_codes@[j])@ == v_codes[i + j],
            col_keys@ == v_keys,
            col_geonames@ == v_geonames,
            col_tags@ == v_tags,
            col_codetags@ == v_codetags,
            col_lasts@ == v_lasts,
            v_keys.len() == n,
            v_geonames.len() == n,
            v_tags.len() == n,
            v_names.len() == n,
            v_codetags.len() == n,
            v_codes.len() == n,
            v_lasts.len() == n,
            forall|j: int| 0 <= j < v_keys.len() ==> (#[trigger] v_keys[j]) <= 0xffff_ffff,
            forall|j: int| 0 <= j < v_geonames.len() ==> (#[trigger] v_geonames[j]) <= 0xffff_ffff,
            forall|j: int| 0 <= j < v_tags.len() ==> (#[trigger] v_tags[j]) <= 1,
            forall|j: int| 0 <= j < v_codetags.len() ==> (#[trigger] v_codetags[j]) <= 1,
            i <= n,
            out@.len() == i,
            forall|j: int| 0 <= j < i ==> (#[trigger] out@[j]).0 == v_keys[j] as u32 && out@[j].1@ == (crate::state::GeoContinentV { geoname_id: v_geonames[j] as u32, name: if v_tags[j] == 1 { Some(v_names[j]) } else { None }, code: if v_codetags[j] == 1 { Some(v_codes[j]) } else { None }, last_updated: v_lasts[j] }),
        decreases n - i,
    {
        let ghost pre_names = col_names@;
        let x_names = col_names.remove(0);
        proof {
            assert(x_names@ == v_names[i as int]);
            assert forall|j: int| 0 <= j < n - i - 1 implies (#[trigger] col_names@[j])@ == v_names[i + 1 + j] by {
                assert(col_names@[j] == pre_names[j + 1]);
            }
        }
        let ghost pre_codes = col_codes@;
        let x_codes = col_codes.remove(0);
        proof {
            assert(x_codes@ == v_codes[i as int]);
            assert forall|j: int| 0 <= j < n - i - 1 implies (#[trigger] col_codes@[j])@ == v_codes[i + 1 + j] by {
                assert(col_codes@[j] == pre_codes[j + 1]);
            }
        }
        let name = if col_tags[i] == 1 { Some(x_names) } else { None };
        let code = if col_codetags[i] == 1 { Some(x_codes) } else { None };
        let entry = (col_keys[i] as u32, crate::state::GeoContinent { geoname_id: col_geonames[i] as u32, name, code, last_updated: col_lasts[i] });
        out.push(entry);
        i = i + 1;
    }
    proof {
        assert(view_continentmap(out@) =~= Seq::new(v_keys.len(), |i: int| (v_keys[i] as u32, crate::state::GeoContinentV { geoname_id: v_geonames[i] as u32, name: if v_tags[i] == 1 { Some(v_names[i]) } else { None }, code: if v_codetags[i] == 1 { Some(v_codes[i]) } else { None }, last_updated: v_lasts[i] }))) by {
            assert forall|j: int| 0 <= j < n implies view_continentmap(out@)[j] == (Seq::new(v_keys.len(), |i: int| (v_keys[i] as u32, crate::state::GeoContinentV { geoname_id: v_geonames[i] as u32, name: if v_tags[i] == 1 { Some(v_names[i]) } else { None }, code: if v_codetags[i] == 1 { Some(v_codes[i]) } else { None }, last_updated: v_lasts[i] })))[j] by {}
        }
    }
    Some((out, p_lasts))
}

/// The encoded checkpoint from the `geo_continent_ip` segment on.
#[verifier::opaque]
pub open spec fn stail_geo_continent_ip(sv: crate::state::StateV) -> Seq<u8> {
    enc_utmap(sv.geo_continent_ip)
}

/// The encoded checkpoint from the `geo_country_ip` segment on.
#[verifier::opaque]
pub open spec fn stail_geo_country_ip(sv: crate::state::StateV) -> Seq<u8> {
    enc_utmap(sv.geo_country_ip) + stail_geo_continent_ip(sv)
}

/// The encoded checkpoint from the `geo_city_ip` segment on.
#[verifier::opaque]
pub open spec fn stail_geo_city_ip(sv: crate::state::StateV) -> Seq<u8> {
    enc_utmap(sv.geo_city_ip) + stail_geo_country_ip(sv)
}

/// The encoded checkpoint from the `geo_ip_continent` segment on.
#[verifier::opaque]
pub open spec fn stail_geo_ip_continent(sv: crate::state::StateV) -> Seq<u8> {
    enc_tumap(sv.geo_ip_continent) + stail_geo_city_ip(sv)
}

/// The encoded checkpoint from the `geo_ip_country` segment on.
#[verifier::opaque]
pub open spec fn stail_geo_ip_country(sv: crate::state::StateV) -> Seq<u8> {
    enc_tumap(sv.geo_ip_country) + stail_geo_ip_continent(sv)
}

/// The encoded checkpoint from the `geo_ip_city` segment on.
#[verifier::opaque]
pub open spec fn stail_geo_ip_city(sv: crate::state::StateV) -> Seq<u8> {
    enc_tumap(sv.geo_ip_city) + stail_geo_ip_country(sv)
}

/// The encoded checkpoint from the `geo_continent` segment on.
#[verifier::opaque]
pub open spec fn stail_geo_continent(sv: crate::state::StateV) -> Seq<u8> {
    enc_continentmap(sv.geo_continent) + stail_geo_ip_city(sv)
}

/// The encoded checkpoint from the `geo_country` segment on.
#[verifier::opaque]
pub open spec fn stail_geo_country(sv: crate::state::StateV) -> Seq<u8> {
    enc_countrymap(sv.geo_country) + stail_geo_continent(sv)
}

/// The encoded checkpoint from the `geo_city` segment on.
#[verifier::opaque]
pub open spec fn stail_geo_city(sv: crate::state::StateV) -> Seq<u8> {
    enc_citymap(sv.geo_city) + stail_geo_country(sv)
}

/// The encoded checkpoint from the `asn` segment on.
#[verifier::opaque]
pub open spec fn stail_asn(sv: crate::state::StateV) -> Seq<u8> {
    enc_asnmap(sv.asn) + stail_geo_city(sv)
}

/// The encoded checkpoint from the `asn_ip` segment on.
#[verifier::opaque]
pub open spec fn stail_asn_ip(sv: crate::state::StateV) -> Seq<u8> {
    enc_ttmap(sv.asn_ip) + stail_asn(sv)
}

/// The encoded checkpoint from the `ip_asn` segment on.
#[verifier::opaque]
pub open spec fn stail_ip_asn(sv: crate::state::StateV) -> Seq<u8> {
    enc_ipasnmap(sv.ip_asn) + stail_asn_ip(sv)
}

/// The encoded checkpoint from the `new_ips_geo` segment on.
#[verifier::opaque]
pub open spec fn stail_new_ips_geo(sv: crate::state::StateV) -> Seq<u8> {
    enc_texts(sv.new_ips_geo) + stail_ip_asn(sv)
}

/// The encoded checkpoint from the `new_ips_bgp` segment on.
#[verifier::opaque]
pub open spec fn stail_new_ips_bgp(sv: crate::state::StateV) -> Seq<u8> {
    enc_texts(sv.new_ips_bgp) + stail_new_ips_geo(sv)
}

/// The encoded checkpoint from the `new_nodes` segment on.
#[verifier::opaque]
pub open spec fn stail_new_nodes(sv: crate::state::StateV) -> Seq<u8> {
    enc_texts(sv.new_nodes) + stail_new_ips_bgp(sv)
}

/// The encoded checkpoint from the `id_ip_addr` segment on.
#[verifier::opaque]
pub open spec fn stail_id_ip_addr(sv: crate::state::StateV) -> Seq<u8> {
    enc_nodemap(sv.id_ip_addr) + stail_new_nodes(sv)
}

/// The encoded checkpoint from the `ip_ip_addr` segment on.
#[verifier::opaque]
pub open spec fn stail_ip_ip_addr(sv: crate::state::StateV) -> Seq<u8> {
    enc_nodemap(sv.ip_ip_addr) + stail_id_ip_addr(sv)
}

/// The encoded checkpoint from the `nodes` segment on.
#[verifier::opaque]
pub open spec fn stail_nodes(sv: crate::state::StateV) -> Seq<u8> {
    enc_nodemap(sv.nodes) + stail_ip_ip_addr(sv)
}

/// The encoded checkpoint from the `last_saved` segment on.
#[verifier::opaque]
pub open spec fn stail_last_saved(sv: crate::state::StateV) -> Seq<u8> {
    enc_u64(sv.last_saved) + stail_nodes(sv)
}

/// The encoded checkpoint from the `version` segment on.
#[verifier::opaque]
pub open spec fn stail_version(sv: crate::state::StateV) -> Seq<u8> {
    enc_u64(STATE_VERSION_1) + stail_last_saved(sv)
}

/// The whole state as a checkpoint: the version tag, then every field.
pub open spec fn enc_state(sv: crate::state::StateV) -> Seq<u8> {
    stail_version(sv)
}

/// Start of the `version` segment.
#[verifier::opaque]
pub open spec fn spos_version(sv: crate::state::StateV) -> int {
    0
}

/// Start of the `last_saved` segment.
#[verifier::opaque]
pub open spec fn spos_last_saved(sv: crate::state::StateV) -> int {
    spos_version(sv) + enc_u64(STATE_VERSION_1).len()
}

/// Start of the `nodes` segment.
#[verifier::opaque]
pub open spec fn spos_nodes(sv: crate::state::StateV) -> int {
    spos_last_saved(sv) + enc_u64(sv.last_saved).len()
}

/// Start of the `ip_ip_addr` segment.
#[verifier::opaque]
pub open spec fn spos_ip_ip_addr(sv: crate::state::StateV) -> int {
    spos_nodes(sv) + enc_nodemap(sv.nodes).len()
}

/// Start of the `id_ip_addr` segment.
#[verifier::opaque]
pub open spec fn spos_id_ip_addr(sv: crate::state::StateV) -> int {
    spos_ip_ip_addr(sv) + enc_nodemap(sv.ip_ip_addr).len()
}

/// Start of the `new_nodes` segment.
#[verifier::opaque]
pub open spec fn spos_new_nodes(sv: crate::state::StateV) -> int {
    spos_id_ip_addr(sv) + enc_nodemap(sv.id_ip_addr).len()
}

/// Start of the `new_ips_bgp` segment.
#[verifier::opaque]
pub open spec fn spos_new_ips_bgp(sv: crate::state::StateV) -> int {
    spos_new_nodes(sv) + enc_texts(sv.new_nodes).len()
}

/// Start of the `new_ips_geo` segment.
#[verifier::opaque]
pub open spec fn spos_new_ips_geo(sv: crate::state::StateV) -> int {
    spos_new_ips_bgp(sv) + enc_texts(sv.new_ips_bgp).len()
}

/// Start of the `ip_asn` segment.
#[verifier::opaque]
pub open spec fn spos_ip_asn(sv: crate::state::StateV) -> int {
    spos_new_ips_geo(sv) + enc_texts(sv.new_ips_geo).len()
}

/// Start of the `asn_ip` segment.
#[verifier::opaque]
pub open spec fn spos_asn_ip(sv: crate::state::StateV) -> int {
    spos_ip_asn(sv) + enc_ipasnmap(sv.ip_asn).len()
}

/// Start of the `asn` segment.
#[verifier::opaque]
pub open spec fn spos_asn(sv: crate::state::StateV) -> int {
    spos_asn_ip(sv) + enc_ttmap(sv.asn_ip).len()
}

/// Start of the `geo_city` segment.
#[verifier::opaque]
pub open spec fn spos_geo_city(sv: crate::state::StateV) -> int {
    spos_asn(sv) + enc_asnmap(sv.asn).len()
}

/// Start of the `geo_country` segment.
#[verifier::opaque]
pub open spec fn spos_geo_country(sv: crate::state::StateV) -> int {
    spos_geo_city(sv) + enc_citymap(sv.geo_city).len()
}

/// Start of the `geo_continent` segment.
#[verifier::opaque]
pub open spec fn spos_geo_continent(sv: crate::state::StateV) -> int {
    spos_geo_country(sv) + enc_countrymap(sv.geo_country).len()
}

/// Start of the `geo_ip_city` segment.
#[verifier::opaque]
pub open spec fn spos_geo_ip_city(sv: crate::state::StateV) -> int {
    spos_geo_continent(sv) + enc_continentmap(sv.geo_continent).len()
}

/// Start of the `geo_ip_country` segment.
#[verifier::opaque]
pub open spec fn spos_geo_ip_country(sv: crate::state::StateV) -> int {
    spos_geo_ip_city(sv) + enc_tumap(sv.geo_ip_city).len()
}

/// Start of the `geo_ip_continent` segment.
#[verifier::opaque]
pub open spec fn spos_geo_ip_continent(sv: crate::state::StateV) -> int {
    spos_geo_ip_country(sv) + enc_tumap(sv.geo_ip_country).len()
}

/// Start of the `geo_city_ip` segment.
#[verifier::opaque]
pub open spec fn spos_geo_city_ip(sv: crate::state::StateV) -> int {
    spos_geo_ip_continent(sv) + enc_tumap(sv.geo_ip_continent).len()
}

/// Start of the `geo_country_ip` segment.
#[verifier::opaque]
pub open spec fn spos_geo_country_ip(sv: crate::state::StateV) -> int {
    spos_geo_city_ip(sv) + enc_utmap(sv.geo_city_ip).len()
}

/// Start of the `geo_continent_ip` segment.
#[verifier::opaque]
pub open spec fn spos_geo_continent_ip(sv: crate::state::StateV) -> int {
    spos_geo_country_ip(sv) + enc_utmap(sv.geo_country_ip).len()
}

/// End of the last segment.
#[verifier::opaque]
pub open spec fn spos_end(sv: crate::state::StateV) -> int {
    spos_geo_continent_ip(sv) + enc_utmap(sv.geo_continent_ip).len()
}

/// Machine bounds every in-memory state meets.
pub open spec fn state_bounded(sv: crate::state::StateV) -> bool {
    &&& bounded_nodemap(sv.nodes)
    &&& bounded_nodemap(sv.ip_ip_addr)
    &&& bounded_nodemap(sv.id_ip_addr)
    &&& sv.new_nodes.len() <= u64::MAX
    &&& texts_bounded(sv.new_nodes)
    &&& sv.new_ips_bgp.len() <= u64::MAX
    &&& texts_bounded(sv.new_ips_bgp)
    &&& sv.new_ips_geo.len() <= u64::MAX
    &&& texts_bounded(sv.new_ips_geo)
    &&& bounded_ipasnmap(sv.ip_asn)
    &&& bounded_ttmap(sv.asn_ip)
    &&& bounded_asnmap(sv.asn)
    &&& bounded_citymap(sv.geo_city)
    &&& bounded_countrymap(sv.geo_country)
    &&& bounded_continentmap(sv.geo_continent)
    &&& bounded_tumap(sv.geo_ip_city)
    &&& bounded_tumap(sv.geo_ip_country)
    &&& bounded_tumap(sv.geo_ip_continent)
    &&& bounded_utmap(sv.geo_city_ip)
    &&& bounded_utmap(sv.geo_country_ip)
    &&& bounded_utmap(sv.geo_continent_ip)
}

/// Decode of a whole checkpoint: the state image exactly when the bytes
/// are a well-formed version-1 checkpoint with nothing trailing.
pub open spec fn dec_state(b: Seq<u8>) -> Option<crate::state::StateV> {
    match dec_u64(b, 0) {
        None => None,
        Some((d_version, p_version)) => {
            if d_version != STATE_VERSION_1 {
                None
            } else {
                match dec_u64(b, p_version) {
                    None => None,
                    Some((d_last_saved, p_last_saved)) => {
                        match dec_nodemap(b, p_last_saved) {
                            None => None,
                            Some((d_nodes, p_nodes)) => {
                                match dec_nodemap(b, p_nodes) {
                                    None => None,
                                    Some((d_ip_ip_addr, p_ip_ip_addr)) => {
                                        match dec_nodemap(b, p_ip_ip_addr) {
                                            None => None,
                                            Some((d_id_ip_addr, p_id_ip_addr)) => {
                                                match dec_texts(b, p_id_ip_addr) {
                                                    None => None,
                                                    Some((d_new_nodes, p_new_nodes)) => {
                                                        match dec_texts(b, p_new_nodes) {
                                                            None => None,
                                                            Some((d_new_ips_bgp, p_new_ips_bgp)) => {
                                                                match dec_texts(b, p_new_ips_bgp) {
                                                                    None => None,
                                                                    Some((d_new_ips_geo, p_new_ips_geo)) => {
                                                                        match dec_ipasnmap(b, p_new_ips_geo) {
                                                                            None => None,
                                                                            Some((d_ip_asn, p_ip_asn)) => {
                                                                                match dec_ttmap(b, p_ip_asn) {
                                                                                    None => None,
                                                                                    Some((d_asn_ip, p_asn_ip)) => {
                                                                                        match dec_asnmap(b, p_asn_ip) {
                                                                                            None => None,
                                                                                            Some((d_asn, p_asn)) => {
                                                                                                match dec_citymap(b, p_asn) {
                                                                                                    None => None,
                                                                                                    Some((d_geo_city, p_geo_city)) => {
                                                                                                        match dec_countrymap(b, p_geo_city) {
                                                                                                            None => None,
                                                                                                            Some((d_geo_country, p_geo_country)) => {
                                                                                                                match dec_continentmap(b, p_geo_country) {
                                                                                                                    None => None,
                                                                                                                    Some((d_geo_continent, p_geo_continent)) => {
                                                                                                                        match dec_tumap(b, p_geo_continent) {
                                                                                                                            None => None,
                                                                                                                            Some((d_geo_ip_city, p_geo_ip_city)) => {
                                                                                                                                match dec_tumap(b, p_geo_ip_city) {
                                                                                                                                    None => None,
                                                                                                                                    Some((d_geo_ip_country, p_geo_ip_country)) => {
                                                                                                                                        match dec_tumap(b, p_geo_ip_country) {
                                                                                                                                            None => None,
                                                                                                                                            Some((d_geo_ip_continent, p_geo_ip_continent)) => {
                                                                                                                                                match dec_utmap(b, p_geo_ip_continent) {
                                                                                                                                                    None => None,
                                                                                                                                                    Some((d_geo_city_ip, p_geo_city_ip)) => {
                                                                                                                                                        match dec_utmap(b, p_geo_city_ip) {
                                                                                                                                                            None => None,
                                                                                                                                                            Some((d_geo_country_ip, p_geo_country_ip)) => {
                                                                                                                                                                match dec_utmap(b, p_geo_country_ip) {
                                                                                                                                                                    None => None,
                                                                                                                                                                    Some((d_geo_continent_ip, p_geo_continent_ip)) => {
                                                                                                                                                                        if p_geo_continent_ip == b.len() {
                                                                                                                                                                            Some(crate::state::StateV {
                                                                                                                                                                                last_saved: d_last_saved,
                                                                                                                                                                                nodes: d_nodes,
                                                                                                                                                                                ip_ip_addr: d_ip_ip_addr,
                                                                                                                                                                                id_ip_addr: d_id_ip_addr,
                                                                                                                                                                                new_nodes: d_new_nodes,
                                                                                                                                                                                new_ips_bgp: d_new_ips_bgp,
                                                                                                                                                                                new_ips_geo: d_new_ips_geo,
                                                                                                                                                                                ip_asn: d_ip_asn,
                                                                                                                                                                                asn_ip: d_asn_ip,
                                                                                                                                                                                asn: d_asn,
                                                                                                                                                                                geo_city: d_geo_city,
                                                                                                                                                                                geo_country: d_geo_country,
                                                                                                                                                                                geo_continent: d_geo_continent,
                                                                                                                                                                                geo_ip_city: d_geo_ip_city,
                                                                                                                                                                                geo_ip_country: d_geo_ip_country,
                                                                                                                                                                                geo_ip_continent: d_geo_ip_continent,
                                                                                                                                                                                geo_city_ip: d_geo_city_ip,
                                                                                                                                                                                geo_country_ip: d_geo_country_ip,
                                                                                                                                                                                geo_continent_ip: d_geo_continent_ip,
                                                                                                                                                                            })
                                                                                                                                                                        } else {
                                                                                                                                                                            None
                                                                                                                                                                        }
                                                                                                                                                                    },
                                                                                                                                                                }
                                                                                                                                                            },
                                                                                                                                                        }
                                                                                                                                                    },
                                                                                                                                                }
                                                                                                                                            },
                                                                                                                                        }
                                                                                                                                    },
                                                                                                                                }
                                                                                                                            },
                                                                                                                        }
                                                                                                                    },
                                                                                                                }
                                                                                                            },
                                                                                                        }
                                                                                                    },
                                                                                                }
                                                                                            },
                                                                                        }
                                                                                    },
                                                                                }
                                                                            },
                                                                        }
                                                                    },
                                                                }
                                                            },
                                                        }
                                                    },
                                                }
                                            },
                                        }
                                    },
                                }
                            },
                        }
                    },
                }
            }
        },
    }
}

proof fn lemma_peel_version(sv: crate::state::StateV, b: Seq<u8>)
    requires
        spos_version(sv) >= 0,
        spos_version(sv) <= b.len() as int,
        b.subrange(spos_version(sv), b.len() as int) == stail_version(sv),
    ensures
        dec_u64(b, spos_version(sv)) == Some((STATE_VERSION_1, spos_last_saved(sv))),
        b.subrange(spos_last_saved(sv), b.len() as int) == stail_last_saved(sv),
        spos_last_saved(sv) >= 0,
        spos_last_saved(sv) <= b.len() as int,
{
    reveal(stail_version);
    assert(b.subrange(spos_version(sv), b.len() as int).len() == stail_version(sv).len());
    reveal(spos_last_saved);
    assert(spos_version(sv) + enc_u64(STATE_VERSION_1).len() + stail_last_saved(sv).len() == b.len() as int);
    assert(b.subrange(spos_version(sv), spos_version(sv) + enc_u64(STATE_VERSION_1).len() + stail_last_saved(sv).len() as int) == b.subrange(spos_version(sv), b.len() as int));
    lemma_split_head(b, spos_version(sv), enc_u64(STATE_VERSION_1), stail_last_saved(sv));
    rt_u64(STATE_VERSION_1, b, spos_version(sv));
}

proof fn lemma_peel_last_saved(sv: crate::state::StateV, b: Seq<u8>)
    requires
        spos_last_saved(sv) >= 0,
        spos_last_saved(sv) <= b.len() as int,
        b.subrange(spos_last_saved(sv), b.len() as int) == stail_last_saved(sv),
    ensures
        dec_u64(b, spos_last_saved(sv)) == Some((sv.last_saved, spos_nodes(sv))),
        b.subrange(spos_nodes(sv), b.len() as int) == stail_nodes(sv),
        spos_nodes(sv) >= 0,
        spos_nodes(sv) <= b.len() as int,
{
    reveal(stail_last_saved);
    assert(b.subrange(spos_last_saved(sv), b.len() as int).len() == stail_last_saved(sv).len());
    reveal(spos_nodes);
    assert(spos_last_saved(sv) + enc_u64(sv.last_saved).len() + stail_nodes(sv).len() == b.len() as int);
    assert(b.subrange(spos_last_saved(sv), spos_last_saved(sv) + enc_u64(sv.last_saved).len() + stail_nodes(sv).len() as int) == b.subrange(spos_last_saved(sv), b.len() as int));
    lemma_split_head(b, spos_last_saved(sv), enc_u64(sv.last_saved), stail_nodes(sv));
    rt_u64(sv.last_saved, b, spos_last_saved(sv));
}

proof fn lemma_peel_nodes(sv: crate::state::StateV, b: Seq<u8>)
    requires
        bounded_nodemap(sv.nodes),
        spos_nodes(sv) >= 0,
        spos_nodes(sv) <= b.len() as int,
        b.subrange(spos_nodes(sv), b.len() as int) == stail_nodes(sv),
    ensures
        dec_nodemap(b, spos_nodes(sv)) == Some((sv.nodes, spos_ip_ip_addr(sv))),
        b.subrange(spos_ip_ip_addr(sv), b.len() as int) == stail_ip_ip_addr(sv),
        spos_ip_ip_addr(sv) >= 0,
        spos_ip_ip_addr(sv) <= b.len() as int,
{
    reveal(stail_nodes);
    assert(b.subrange(spos_nodes(sv), b.len() as int).len() == stail_nodes(sv).len());
    reveal(spos_ip_ip_addr);
    assert(spos_nodes(sv) + enc_nodemap(sv.nodes).len() + stail_ip_ip_addr(sv).len() == b.len() as int);
    assert(b.subrange(spos_nodes(sv), spos_nodes(sv) + enc_nodemap(sv.nodes).len() + stail_ip_ip_addr(sv).len() as int) == b.subrange(spos_nodes(sv), b.len() as int));
    lemma_split_head(b, spos_nodes(sv), enc_nodemap(sv.nodes), stail_ip_ip_addr(sv));
    rt_nodemap(sv.nodes, b, spos_nodes(sv));
}

proof fn lemma_peel_ip_ip_addr(sv: crate::state::StateV, b: Seq<u8>)
    requires
        bounded_nodemap(sv.ip_ip_addr),
        spos_ip_ip_addr(sv) >= 0,
        spos_ip_ip_addr(sv) <= b.len() as int,
        b.subrange(spos_ip_ip_addr(sv), b.len() as int) == stail_ip_ip_addr(sv),
    ensures
        dec_nodemap(b, spos_ip_ip_addr(sv)) == Some((sv.ip_ip_addr, spos_id_ip_addr(sv))),
        b.subrange(spos_id_ip_addr(sv), b.len() as int) == stail_id_ip_addr(sv),
        spos_id_ip_addr(sv) >= 0,
        spos_id_ip_addr(sv) <= b.len() as int,
{
    reveal(stail_ip_ip_addr);
    assert(b.subrange(spos_ip_ip_addr(sv), b.len() as int).len() == stail_ip_ip_addr(sv).len());
    reveal(spos_id_ip_addr);
    assert(spos_ip_ip_addr(sv) + enc_nodemap(sv.ip_ip_addr).len() + stail_id_ip_addr(sv).len() == b.len() as int);
    assert(b.subrange(spos_ip_ip_addr(sv), spos_ip_ip_addr(sv) + enc_nodemap(sv.ip_ip_addr).len() + stail_id_ip_addr(sv).len() as int) == b.subrange(spos_ip_ip_addr(sv), b.len() as int));
    lemma_split_head(b, spos_ip_ip_addr(sv), enc_nodemap(sv.ip_ip_addr), stail_id_ip_addr(sv));
    rt_nodemap(sv.ip_ip_addr, b, spos_ip_ip_addr(sv));
}

proof fn lemma_peel_id_ip_addr(sv: crate::state::StateV, b: Seq<u8>)
    requires
        bounded_nodemap(sv.id_ip_addr),
        spos_id_ip_addr(sv) >= 0,
        spos_id_ip_addr(sv) <= b.len() as int,
        b.subrange(spos_id_ip_addr(sv), b.len() as int) == stail_id_ip_addr(sv),
    ensures
        dec_nodemap(b, spos_id_ip_addr(sv)) == Some((sv.id_ip_addr, spos_new_nodes(sv))),
        b.subrange(spos_new_nodes(sv), b.len() as int) == stail_new_nodes(sv),
        spos_new_nodes(sv) >= 0,
        spos_new_nodes(sv) <= b.len() as int,
{
    reveal(stail_id_ip_addr);
    assert(b.subrange(spos_id_ip_addr(sv), b.len() as int).len() == stail_id_ip_addr(sv).len());
    reveal(spos_new_nodes);
    assert(spos_id_ip_addr(sv) + enc_nodemap(sv.id_ip_addr).len() + stail_new_nodes(sv).len() == b.len() as int);
    assert(b.subrange(spos_id_ip_addr(sv), spos_id_ip_addr(sv) + enc_nodemap(sv.id_ip_addr).len() + stail_new_nodes(sv).len() as int) == b.subrange(spos_id_ip_addr(sv), b.len() as int));
    lemma_split_head(b, spos_id_ip_addr(sv), enc_nodemap(sv.id_ip_addr), stail_new_nodes(sv));
    rt_nodemap(sv.id_ip_addr, b, spos_id_ip_addr(sv));
}

proof fn lemma_peel_new_nodes(sv: crate::state::StateV, b: Seq<u8>)
    requires
        sv.new_nodes.len() <= u64::MAX,
        texts_bounded(sv.new_nodes),
        spos_new_nodes(sv) >= 0,
        spos_new_nodes(sv) <= b.len() as int,
        b.subrange(spos_new_nodes(sv), b.len() as int) == stail_new_nodes(sv),
    ensures
        dec_texts(b, spos_new_nodes(sv)) == Some((sv.new_nodes, spos_new_ips_bgp(sv))),
        b.subrange(spos_new_ips_bgp(sv), b.len() as int) == stail_new_ips_bgp(sv),
        spos_new_ips_bgp(sv) >= 0,
        spos_new_ips_bgp(sv) <= b.len() as int,
{
    reveal(stail_new_nodes);
    assert(b.subrange(spos_new_nodes(sv), b.len() as int).len() == stail_new_nodes(sv).len());
    reveal(spos_new_ips_bgp);
    assert(spos_new_nodes(sv) + enc_texts(sv.new_nodes).len() + stail_new_ips_bgp(sv).len() == b.len() as int);
    assert(b.subrange(spos_new_nodes(sv), spos_new_nodes(sv) + enc_texts(sv.new_nodes).len() + stail_new_ips_bgp(sv).len() as int) == b.subrange(spos_new_nodes(sv), b.len() as int));
    lemma_split_head(b, spos_new_nodes(sv), enc_texts(sv.new_nodes), stail_new_ips_bgp(sv));
    rt_texts(sv.new_nodes, b, spos_new_nodes(sv));
}

proof fn lemma_peel_new_ips_bgp(sv: crate::state::StateV, b: Seq<u8>)
    requires
        sv.new_ips_bgp.len() <= u64::MAX,
        texts_bounded(sv.new_ips_bgp),
        spos_new_ips_bgp(sv) >= 0,
        spos_new_ips_bgp(sv) <= b.len() as int,
        b.subrange(spos_new_ips_bgp(sv), b.len() as int) == stail_new_ips_bgp(sv),
    ensures
        dec_texts(b, spos_new_ips_bgp(sv)) == Some((sv.new_ips_bgp, spos_new_ips_geo(sv))),
        b.subrange(spos_new_ips_geo(sv), b.len() as int) == stail_new_ips_geo(sv),
        spos_new_ips_geo(sv) >= 0,
        spos_new_ips_geo(sv) <= b.len() as int,
{
    reveal(stail_new_ips_bgp);
    assert(b.subrange(spos_new_ips_bgp(sv), b.len() as int).len() == stail_new_ips_bgp(sv).len());
    reveal(spos_new_ips_geo);
    assert(spos_new_ips_bgp(sv) + enc_texts(sv.new_ips_bgp).len() + stail_new_ips_geo(sv).len() == b.len() as int);
    assert(b.subrange(spos_new_ips_bgp(sv), spos_new_ips_bgp(sv) + enc_texts(sv.new_ips_bgp).len() + stail_new_ips_geo(sv).len() as int) == b.subrange(spos_new_ips_bgp(sv), b.len() as int));
    lemma_split_head(b, spos_new_ips_bgp(sv), enc_texts(sv.new_ips_bgp), stail_new_ips_geo(sv));
    rt_texts(sv.new_ips_bgp, b, spos_new_ips_bgp(sv));
}

proof fn lemma_peel_new_ips_geo(sv: crate::state::StateV, b: Seq<u8>)
    requires
        sv.new_ips_geo.len() <= u64::MAX,
        texts_bounded(sv.new_ips_geo),
        spos_new_ips_geo(sv) >= 0,
        spos_new_ips_geo(sv) <= b.len() as int,
        b.subrange(spos_new_ips_geo(sv), b.len() as int) == stail_new_ips_geo(sv),
    ensures
        dec_texts(b, spos_new_ips_geo(sv)) == Some((sv.new_ips_geo, spos_ip_asn(sv))),
        b.subrange(spos_ip_asn(sv), b.len() as int) == stail_ip_asn(sv),
        spos_ip_asn(sv) >= 0,
        spos_ip_asn(sv) <= b.len() as int,
{
    reveal(stail_new_ips_geo);
    assert(b.subrange(spos_new_ips_geo(sv), b.len() as int).len() == stail_new_ips_geo(sv).len());
    reveal(spos_ip_asn);
    assert(spos_new_ips_geo(sv) + enc_texts(sv.new_ips_geo).len() + stail_ip_asn(sv).len() == b.len() as int);
    assert(b.subrange(spos_new_ips_geo(sv), spos_new_ips_geo(sv) + enc_texts(sv.new_ips_geo).len() + stail_ip_asn(sv).len() as int) == b.subrange(spos_new_ips_geo(sv), b.len() as int));
    lemma_split_head(b, spos_new_ips_geo(sv), enc_texts(sv.new_ips_geo), stail_ip_asn(sv));
    rt_texts(sv.new_ips_geo, b, spos_new_ips_geo(sv));
}

proof fn lemma_peel_ip_asn(sv: crate::state::StateV, b: Seq<u8>)
    requires
        bounded_ipasnmap(sv.ip_asn),
        spos_ip_asn(sv) >= 0,
        spos_ip_asn(sv) <= b.len() as int,
        b.subrange(spos_ip_asn(sv), b.len() as int) == stail_ip_asn(sv),
    ensures
        dec_ipasnmap(b, spos_ip_asn(sv)) == Some((sv.ip_asn, spos_asn_ip(sv))),
        b.subrange(spos_asn_ip(sv), b.len() as int) == stail_asn_ip(sv),
        spos_asn_ip(sv) >= 0,
        spos_asn_ip(sv) <= b.len() as int,
{
    reveal(stail_ip_asn);
    assert(b.subrange(spos_ip_asn(sv), b.len() as int).len() == stail_ip_asn(sv).len());
    reveal(spos_asn_ip);
    assert(spos_ip_asn(sv) + enc_ipasnmap(sv.ip_asn).len() + stail_asn_ip(sv).len() == b.len() as int);
    assert(b.subrange(spos_ip_asn(sv), spos_ip_asn(sv) + enc_ipasnmap(sv.ip_asn).len() + stail_asn_ip(sv).len() as int) == b.subrange(spos_ip_asn(sv), b.len() as int));
    lemma_split_head(b, spos_ip_asn(sv), enc_ipasnmap(sv.ip_asn), stail_asn_ip(sv));
    rt_ipasnmap(sv.ip_asn, b, spos_ip_asn(sv));
}

proof fn lemma_peel_asn_ip(sv: crate::state::StateV, b: Seq<u8>)
    requires
        bounded_ttmap(sv.asn_ip),
        spos_asn_ip(sv) >= 0,
        spos_asn_ip(sv) <= b.len() as int,
        b.subrange(spos_asn_ip(sv), b.len() as int) == stail_asn_ip(sv),
    ensures
        dec_ttmap(b, spos_asn_ip(sv)) == Some((sv.asn_ip, spos_asn(sv))),
        b.subrange(spos_asn(sv), b.len() as int) == stail_asn(sv),
        spos_asn(sv) >= 0,
        spos_asn(sv) <= b.len() as int,
{
    reveal(stail_asn_ip);
    assert(b.subrange(spos_asn_ip(sv), b.len() as int).len() == stail_asn_ip(sv).len());
    reveal(spos_asn);
    assert(spos_asn_ip(sv) + enc_ttmap(sv.asn_ip).len() + stail_asn(sv).len() == b.len() as int);
    assert(b.subrange(spos_asn_ip(sv), spos_asn_ip(sv) + enc_ttmap(sv.asn_ip).len() + stail_asn(sv).len() as int) == b.subrange(spos_asn_ip(sv), b.len() as int));
    lemma_split_head(b, spos_asn_ip(sv), enc_ttmap(sv.asn_ip), stail_asn(sv));
    rt_ttmap(sv.asn_ip, b, spos_asn_ip(sv));
}

proof fn lemma_peel_asn(sv: crate::state::StateV, b: Seq<u8>)
    requires
        bounded_asnmap(sv.asn),
        spos_asn(sv) >= 0,
        spos_asn(sv) <= b.len() as int,
        b.subrange(spos_asn(sv), b.len() as int) == stail_asn(sv),
    ensures
        dec_asnmap(b, spos_asn(sv)) == Some((sv.asn, spos_geo_city(sv))),
        b.subrange(spos_geo_city(sv), b.len() as int) == stail_geo_city(sv),
        spos_geo_city(sv) >= 0,
        spos_geo_city(sv) <= b.len() as int,
{
    reveal(stail_asn);
    assert(b.subrange(spos_asn(sv), b.len() as int).len() == stail_asn(sv).len());
    reveal(spos_geo_city);
    assert(spos_asn(sv) + enc_asnmap(sv.asn).len() + stail_geo_city(sv).len() == b.len() as int);
    assert(b.subrange(spos_asn(sv), spos_asn(sv) + enc_asnmap(sv.asn).len() + stail_geo_city(sv).len() as int) == b.subrange(spos_asn(sv), b.len() as int));
    lemma_split_head(b, spos_asn(sv), enc_asnmap(sv.asn), stail_geo_city(sv));
    rt_asnmap(sv.asn, b, spos_asn(sv));
}

proof fn lemma_peel_geo_city(sv: crate::state::StateV, b: Seq<u8>)
    requires
        bounded_citymap(sv.geo_city),
        spos_geo_city(sv) >= 0,
        spos_geo_city(sv) <= b.len() as int,
        b.subrange(spos_geo_city(sv), b.len() as int) == stail_geo_city(sv),
    ensures
        dec_citymap(b, spos_geo_city(sv)) == Some((sv.geo_city, spos_geo_country(sv))),
        b.subrange(spos_geo_country(sv), b.len() as int) == stail_geo_country(sv),
        spos_geo_country(sv) >= 0,
        spos_geo_country(sv) <= b.len() as int,
{
    reveal(stail_geo_city);
    assert(b.subrange(spos_geo_city(sv), b.len() as int).len() == stail_geo_city(sv).len());
    reveal(spos_geo_country);
    assert(spos_geo_city(sv) + enc_citymap(sv.geo_city).len() + stail_geo_country(sv).len() == b.len() as int);
    assert(b.subrange(spos_geo_city(sv), spos_geo_city(sv) + enc_citymap(sv.geo_city).len() + stail_geo_country(sv).len() as int) == b.subrange(spos_geo_city(sv), b.len() as int));
    lemma_split_head(b, spos_geo_city(sv), enc_citymap(sv.geo_city), stail_geo_country(sv));
    rt_citymap(sv.geo_city, b, spos_geo_city(sv));
}

proof fn lemma_peel_geo_country(sv: crate::state::StateV, b: Seq<u8>)
    requires
        bounded_countrymap(sv.geo_country),
        spos_geo_country(sv) >= 0,
        spos_geo_country(sv) <= b.len() as int,
        b.subrange(spos_geo_country(sv), b.len() as int) == stail_geo_country(sv),
    ensures
        dec_countrymap(b, spos_geo_country(sv)) == Some((sv.geo_country, spos_geo_continent(sv))),
        b.subrange(spos_geo_continent(sv), b.len() as int) == stail_geo_continent(sv),
        spos_geo_continent(sv) >= 0,
        spos_geo_continent(sv) <= b.len() as int,
{
    reveal(stail_geo_country);
    assert(b.subrange(spos_geo_country(sv), b.len() as int).len() == stail_geo_country(sv).len());
    reveal(spos_geo_continent);
    assert(spos_geo_country(sv) + enc_countrymap(sv.geo_country).len() + stail_geo_continent(sv).len() == b.len() as int);
    assert(b.subrange(spos_geo_country(sv), spos_geo_country(sv) + enc_countrymap(sv.geo_country).len() + stail_geo_continent(sv).len() as int) == b.subrange(spos_geo_country(sv), b.len() as int));
    lemma_split_head(b, spos_geo_country(sv), enc_countrymap(sv.geo_country), stail_geo_continent(sv));
    rt_countrymap(sv.geo_country, b, spos_geo_country(sv));
}

proof fn lemma_peel_geo_continent(sv: crate::state::StateV, b: Seq<u8>)
    requires
        bounded_continentmap(sv.geo_continent),
        spos_geo_continent(sv) >= 0,
        spos_geo_continent(sv) <= b.len() as int,
        b.subrange(spos_geo_continent(sv), b.len() as int) == stail_geo_continent(sv),
    ensures
        dec_continentmap(b, spos_geo_continent(sv)) == Some((sv.geo_continent, spos_geo_ip_city(sv))),
        b.subrange(spos_geo_ip_city(sv), b.len() as int) == stail_geo_ip_city(sv),
        spos_geo_ip_city(sv) >= 0,
        spos_geo_ip_city(sv) <= b.len() as int,
{
    reveal(stail_geo_continent);
    assert(b.subrange(spos_geo_continent(sv), b.len() as int).len() == stail_geo_continent(sv).len());
    reveal(spos_geo_ip_city);
    assert(spos_geo_continent(sv) + enc_continentmap(sv.geo_continent).len() + stail_geo_ip_city(sv).len() == b.len() as int);
    assert(b.subrange(spos_geo_continent(sv), spos_geo_continent(sv) + enc_continentmap(sv.geo_continent).len() + stail_geo_ip_city(sv).len() as int) == b.subrange(spos_geo_continent(sv), b.len() as int));
    lemma_split_head(b, spos_geo_continent(sv), enc_continentmap(sv.geo_continent), stail_geo_ip_city(sv));
    rt_continentmap(sv.geo_continent, b, spos_geo_continent(sv));
}

proof fn lemma_peel_geo_ip_city(sv: crate::state::StateV, b: Seq<u8>)
    requires
        bounded_tumap(sv.geo_ip_city),
        spos_geo_ip_city(sv) >= 0,
        spos_geo_ip_city(sv) <= b.len() as int,
        b.subrange(spos_geo_ip_city(sv), b.len() as int) == stail_geo_ip_city(sv),
    ensures
        dec_tumap(b, spos_geo_ip_city(sv)) == Some((sv.geo_ip_city, spos_geo_ip_country(sv))),
        b.subrange(spos_geo_ip_country(sv), b.len() as int) == stail_geo_ip_country(sv),
        spos_geo_ip_country(sv) >= 0,
        spos_geo_ip_country(sv) <= b.len() as int,
{
    reveal(stail_geo_ip_city);
    assert(b.subrange(spos_geo_ip_city(sv), b.len() as int).len() == stail_geo_ip_city(sv).len());
    reveal(spos_geo_ip_country);
    assert(spos_geo_ip_city(sv) + enc_tumap(sv.geo_ip_city).len() + stail_geo_ip_country(sv).len() == b.len() as int);
    assert(b.subrange(spos_geo_ip_city(sv), spos_geo_ip_city(sv) + enc_tumap(sv.geo_ip_city).len() + stail_geo_ip_country(sv).len() as int) == b.subrange(spos_geo_ip_city(sv), b.len() as int));
    lemma_split_head(b, spos_geo_ip_city(sv), enc_tumap(sv.geo_ip_city), stail_geo_ip_country(sv));
    rt_tumap(sv.geo_ip_city, b, spos_geo_ip_city(sv));
}

proof fn lemma_peel_geo_ip_country(sv: crate::state::StateV, b: Seq<u8>)
    requires
        bounded_tumap(sv.geo_ip_country),
        spos_geo_ip_country(sv) >= 0,
        spos_geo_ip_country(sv) <= b.len() as int,
        b.subrange(spos_geo_ip_country(sv), b.len() as int) == stail_geo_ip_country(sv),
    ensures
        dec_tumap(b, spos_geo_ip_country(sv)) == Some((sv.geo_ip_country, spos_geo_ip_continent(sv))),
        b.subrange(spos_geo_ip_continent(sv), b.len() as int) == stail_geo_ip_continent(sv),
        spos_geo_ip_continent(sv) >= 0,
        spos_geo_ip_continent(sv) <= b.len() as int,
{
    reveal(stail_geo_ip_country);
    assert(b.subrange(spos_geo_ip_country(sv), b.len() as int).len() == stail_geo_ip_country(sv).len());
    reveal(spos_geo_ip_continent);
    assert(spos_geo_ip_country(sv) + enc_tumap(sv.geo_ip_country).len() + stail_geo_ip_continent(sv).len() == b.len() as int);
    assert(b.subrange(spos_geo_ip_country(sv), spos_geo_ip_country(sv) + enc_tumap(sv.geo_ip_country).len() + stail_geo_ip_continent(sv).len() as int) == b.subrange(spos_geo_ip_country(sv), b.len() as int));
    lemma_split_head(b, spos_geo_ip_country(sv), enc_tumap(sv.geo_ip_country), stail_geo_ip_continent(sv));
    rt_tumap(sv.geo_ip_country, b, spos_geo_ip_country(sv));
}

proof fn lemma_peel_geo_ip_continent(sv: crate::state::StateV, b: Seq<u8>)
    requires
        bounded_tumap(sv.geo_ip_continent),
        spos_geo_ip_continent(sv) >= 0,
        spos_geo_ip_continent(sv) <= b.len() as int,
        b.subrange(spos_geo_ip_continent(sv), b.len() as int) == stail_geo_ip_continent(sv),
    ensures
        dec_tumap(b, spos_geo_ip_continent(sv)) == Some((sv.geo_ip_continent, spos_geo_city_ip(sv))),
        b.subrange(spos_geo_city_ip(sv), b.len() as int) == stail_geo_city_ip(sv),
        spos_geo_city_ip(sv) >= 0,
        spos_geo_city_ip(sv) <= b.len() as int,
{
    reveal(stail_geo_ip_continent);
    assert(b.subrange(spos_geo_ip_continent(sv), b.len() as int).len() == stail_geo_ip_continent(sv).len());
    reveal(spos_geo_city_ip);
    assert(spos_geo_ip_continent(sv) + enc_tumap(sv.geo_ip_continent).len() + stail_geo_city_ip(sv).len() == b.len() as int);
    assert(b.subrange(spos_geo_ip_continent(sv), spos_geo_ip_continent(sv) + enc_tumap(sv.geo_ip_continent).len() + stail_geo_city_ip(sv).len() as int) == b.subrange(spos_geo_ip_continent(sv), b.len() as int));
    lemma_split_head(b, spos_geo_ip_continent(sv), enc_tumap(sv.geo_ip_continent), stail_geo_city_ip(sv));
    rt_tumap(sv.geo_ip_continent, b, spos_geo_ip_continent(sv));
}

proof fn lemma_peel_geo_city_ip(sv: crate::state::StateV, b: Seq<u8>)
    requires
        bounded_utmap(sv.geo_city_ip),
        spos_geo_city_ip(sv) >= 0,
        spos_geo_city_ip(sv) <= b.len() as int,
        b.subrange(spos_geo_city_ip(sv), b.len() as int) == stail_geo_city_ip(sv),
    ensures
        dec_utmap(b, spos_geo_city_ip(sv)) == Some((sv.geo_city_ip, spos_geo_country_ip(sv))),
        b.subrange(spos_geo_country_ip(sv), b.len() as int) == stail_geo_country_ip(sv),
        spos_geo_country_ip(sv) >= 0,
        spos_geo_country_ip(sv) <= b.len() as int,
{
    reveal(stail_geo_city_ip);
    assert(b.subrange(spos_geo_city_ip(sv), b.len() as int).len() == stail_geo_city_ip(sv).len());
    reveal(spos_geo_country_ip);
    assert(spos_geo_city_ip(sv) + enc_utmap(sv.geo_city_ip).len() + stail_geo_country_ip(sv).len() == b.len() as int);
    assert(b.subrange(spos_geo_city_ip(sv), spos_geo_city_ip(sv) + enc_utmap(sv.geo_city_ip).len() + stail_geo_country_ip(sv).len() as int) == b.subrange(spos_geo_city_ip(sv), b.len() as int));
    lemma_split_head(b, spos_geo_city_ip(sv), enc_utmap(sv.geo_city_ip), stail_geo_country_ip(sv));
    rt_utmap(sv.geo_city_ip, b, spos_geo_city_ip(sv));
}

proof fn lemma_peel_geo_country_ip(sv: crate::state::StateV, b: Seq<u8>)
    requires
        bounded_utmap(sv.geo_country_ip),
        spos_geo_country_ip(sv) >= 0,
        spos_geo_country_ip(sv) <= b.len() as int,
        b.subrange(spos_geo_country_ip(sv), b.len() as int) == stail_geo_country_ip(sv),
    ensures
        dec_utmap(b, spos_geo_country_ip(sv)) == Some((sv.geo_country_ip, spos_geo_continent_ip(sv))),
        b.subrange(spos_geo_continent_ip(sv), b.len() as int) == stail_geo_continent_ip(sv),
        spos_geo_continent_ip(sv) >= 0,
        spos_geo_continent_ip(sv) <= b.len() as int,
{
    reveal(stail_geo_country_ip);
    assert(b.subrange(spos_geo_country_ip(sv), b.len() as int).len() == stail_geo_country_ip(sv).len());
    reveal(spos_geo_continent_ip);
    assert(spos_geo_country_ip(sv) + enc_utmap(sv.geo_country_ip).len() + stail_geo_continent_ip(sv).len() == b.len() as int);
    assert(b.subrange(spos_geo_country_ip(sv), spos_geo_country_ip(sv) + enc_utmap(sv.geo_country_ip).len() + stail_geo_continent_ip(sv).len() as int) == b.subrange(spos_geo_country_ip(sv), b.len() as int));
    lemma_split_head(b, spos_geo_country_ip(sv), enc_utmap(sv.geo_country_ip), stail_geo_continent_ip(sv));
    rt_utmap(sv.geo_country_ip, b, spos_geo_country_ip(sv));
}

proof fn lemma_peel_geo_continent_ip(sv: crate::state::StateV, b: Seq<u8>)
    requires
        bounded_utmap(sv.geo_continent_ip),
        spos_geo_continent_ip(sv) >= 0,
        spos_geo_continent_ip(sv) <= b.len() as int,
        b.subrange(spos_geo_continent_ip(sv), b.len() as int) == stail_geo_continent_ip(sv),
    ensures
        dec_utmap(b, spos_geo_continent_ip(sv)) == Some((sv.geo_continent_ip, spos_end(sv))),
        spos_end(sv) == b.len(),
{
    reveal(stail_geo_continent_ip);
    assert(b.subrange(spos_geo_continent_ip(sv), b.len() as int).len() == stail_geo_continent_ip(sv).len());
    reveal(spos_end);
    assert(spos_geo_continent_ip(sv) + enc_utmap(sv.geo_continent_ip).len() == b.len() as int);
    assert(b.subrange(spos_geo_continent_ip(sv), spos_geo_continent_ip(sv) + enc_utmap(sv.geo_continent_ip).len() as int) == b.subrange(spos_geo_continent_ip(sv), b.len() as int));
    rt_utmap(sv.geo_continent_ip, b, spos_geo_continent_ip(sv));
}

/// Saving then restoring yields an equal state: decoding the encoding of
/// any in-memory state image gives exactly that image back.
#[verifier::rlimit(100)]
#[verifier::spinoff_prover]
pub proof fn lemma_checkpoint_roundtrip(sv: crate::state::StateV)
    requires
        state_bounded(sv),
    ensures
        dec_state(enc_state(sv)) == Some(sv),
{
    let b = enc_state(sv);
    reveal(spos_version);
    assert(b.subrange(0, b.len() as int) =~= b);
    assert(b.subrange(spos_version(sv), b.len() as int) == stail_version(sv));
    lemma_peel_version(sv, b);
    lemma_peel_last_saved(sv, b);
    lemma_peel_nodes(sv, b);
    lemma_peel_ip_ip_addr(sv, b);
    lemma_peel_id_ip_addr(sv, b);
    lemma_peel_new_nodes(sv, b);
    lemma_peel_new_ips_bgp(sv, b);
    lemma_peel_new_ips_geo(sv, b);
    lemma_peel_ip_asn(sv, b);
    lemma_peel_asn_ip(sv, b);
    lemma_peel_asn(sv, b);
    lemma_peel_geo_city(sv, b);
    lemma_peel_geo_country(sv, b);
    lemma_peel_geo_continent(sv, b);
    lemma_peel_geo_ip_city(sv, b);
    lemma_peel_geo_ip_country(sv, b);
    lemma_peel_geo_ip_continent(sv, b);
    lemma_peel_geo_city_ip(sv, b);
    lemma_peel_geo_country_ip(sv, b);
    lemma_peel_geo_continent_ip(sv, b);
    assert(dec_state(b) matches Some(r2) && r2 =~= sv);
}

#[verifier::rlimit(100)]
#[verifier::spinoff_prover]
fn write_state_a(st: &crate::state::State, buf: &mut Vec<u8>)
    requires
        old(buf)@.len() == 0,
    ensures
        final(buf)@ + stail_new_nodes(st@) == enc_state(st@),
{
    let ghost sv = st@;
    proof {
        assert(old(buf)@ =~= Seq::<u8>::empty());
        assert(old(buf)@ + stail_version(sv) =~= stail_version(sv));
    }
    let ghost pre_version = buf@;
    write_u64(buf, STATE_VERSION_1);
    proof {
        assert(buf@ + stail_last_saved(sv) == enc_state(sv)) by {
            reveal(stail_version);
            assert(buf@ =~= pre_version + enc_u64(STATE_VERSION_1));
            assert((pre_version + enc_u64(STATE_VERSION_1)) + stail_last_saved(sv) =~= pre_version + stail_version(sv));
        }
    }
    let ghost pre_last_saved = buf@;
    write_u64(buf, st.last_saved);
    proof {
        assert(buf@ + stail_nodes(sv) == enc_state(sv)) by {
            reveal(stail_last_saved);
            assert(buf@ =~= pre_last_saved + enc_u64(sv.last_saved));
            assert((pre_last_saved + enc_u64(sv.last_saved)) + stail_nodes(sv) =~= pre_last_saved + stail_last_saved(sv));
        }
    }
    let ghost pre_nodes = buf@;
    write_nodemap(buf, &st.nodes);
    proof {
        assert(view_nodemap(st.nodes@) =~= sv.nodes);
        assert(buf@ + stail_ip_ip_addr(sv) == enc_state(sv)) by {
            reveal(stail_nodes);
            assert(buf@ =~= pre_nodes + enc_nodemap(sv.nodes));
            assert((pre_nodes + enc_nodemap(sv.nodes)) + stail_ip_ip_addr(sv) =~= pre_nodes + stail_nodes(sv));
        }
    }
    let ghost pre_ip_ip_addr = buf@;
    write_nodemap(buf, &st.ip_ip_addr);
    proof {
        assert(view_nodemap(st.ip_ip_addr@) =~= sv.ip_ip_addr);
        assert(buf@ + stail_id_ip_addr(sv) == enc_state(sv)) by {
            reveal(stail_ip_ip_addr);
            assert(buf@ =~= pre_ip_ip_addr + enc_nodemap(sv.ip_ip_addr));
            assert((pre_ip_ip_addr + enc_nodemap(sv.ip_ip_addr)) + stail_id_ip_addr(sv) =~= pre_ip_ip_addr + stail_ip_ip_addr(sv));
        }
    }
    let ghost pre_id_ip_addr = buf@;
    write_nodemap(buf, &st.id_ip_addr);
    proof {
        assert(view_nodemap(st.id_ip_addr@) =~= sv.id_ip_addr);
        assert(buf@ + stail_new_nodes(sv) == enc_state(sv)) by {
            reveal(stail_id_ip_addr);
            assert(buf@ =~= pre_id_ip_addr + enc_nodemap(sv.id_ip_addr));
            assert((pre_id_ip_addr + enc_nodemap(sv.id_ip_addr)) + stail_new_nodes(sv) =~= pre_id_ip_addr + stail_id_ip_addr(sv));
        }
    }
}

#[verifier::rlimit(100)]
#[verifier::spinoff_prover]
fn write_state_b(st: &crate::state::State, buf: &mut Vec<u8>)
    requires
        old(buf)@ + stail_new_nodes(st@) == enc_state(st@),
    ensures
        final(buf)@ + stail_asn(st@) == enc_state(st@),
{
    let ghost sv = st@;
    let ghost pre_new_nodes = buf@;
    write_texts(buf, &st.new_nodes);
    proof {
        assert(st.new_nodes@.map_values(|t: crate::text::Text| t@) =~= sv.new_nodes);
        assert(buf@ + stail_new_ips_bgp(sv) == enc_state(sv)) by {
            reveal(stail_new_nodes);
            assert(buf@ =~= pre_new_nodes + enc_texts(sv.new_nodes));
            assert((pre_new_nodes + enc_texts(sv.new_nodes)) + stail_new_ips_bgp(sv) =~= pre_new_nodes + stail_new_nodes(sv));
        }
    }
    let ghost pre_new_ips_bgp = buf@;
    write_texts(buf, &st.new_ips_bgp);
    proof {
        assert(st.new_ips_bgp@.map_values(|t: crate::text::Text| t@) =~= sv.new_ips_bgp);
        assert(buf@ + stail_new_ips_geo(sv) == enc_state(sv)) by {
            reveal(stail_new_ips_bgp);
            assert(buf@ =~= pre_new_ips_bgp + enc_texts(sv.new_ips_bgp));
            assert((pre_new_ips_bgp + enc_texts(sv.new_ips_bgp)) + stail_new_ips_geo(sv) =~= pre_new_ips_bgp + stail_new_ips_bgp(sv));
        }
    }
    let ghost pre_new_ips_geo = buf@;
    write_texts(buf, &st.new_ips_geo);
    proof {
        assert(st.new_ips_geo@.map_values(|t: crate::text::Text| t@) =~= sv.new_ips_geo);
        assert(buf@ + stail_ip_asn(sv) == enc_state(sv)) by {
            reveal(stail_new_ips_geo);
            assert(buf@ =~= pre_new_ips_geo + enc_texts(sv.new_ips_geo));
            assert((pre_new_ips_geo + enc_texts(sv.new_ips_geo)) + stail_ip_asn(sv) =~= pre_new_ips_geo + stail_new_ips_geo(sv));
        }
    }
    let ghost pre_ip_asn = buf@;
    write_ipasnmap(buf, &st.ip_asn);
    proof {
        assert(view_ipasnmap(st.ip_asn@) =~= sv.ip_asn);
        assert(buf@ + stail_asn_ip(sv) == enc_state(sv)) by {
            reveal(stail_ip_asn);
            assert(buf@ =~= pre_ip_asn + enc_ipasnmap(sv.ip_asn));
            assert((pre_ip_asn + enc_ipasnmap(sv.ip_asn)) + stail_asn_ip(sv) =~= pre_ip_asn + stail_ip_asn(sv));
        }
    }
    let ghost pre_asn_ip = buf@;
    write_ttmap(buf, &st.asn_ip);
    proof {
        assert(view_ttmap(st.asn_ip@) =~= sv.asn_ip);
        assert(buf@ + stail_asn(sv) == enc_state(sv)) by {
            reveal(stail_asn_ip);
            assert(buf@ =~= pre_asn_ip + enc_ttmap(sv.asn_ip));
            assert((pre_asn_ip + enc_ttmap(sv.asn_ip)) + stail_asn(sv) =~= pre_asn_ip + stail_asn_ip(sv));
        }
    }
}

#[verifier::rlimit(100)]
#[verifier::spinoff_prover]
fn write_state_c(st: &crate::state::State, buf: &mut Vec<u8>)
    requires
        old(buf)@ + stail_asn(st@) == enc_state(st@),
    ensures
        final(buf)@ + stail_geo_ip_country(st@) == enc_state(st@),
{
    let ghost sv = st@;
    let ghost pre_asn = buf@;
    write_asnmap(buf, &st.asn);
    proof {
        assert(view_asnmap(st.asn@) =~= sv.asn);
        assert(buf@ + stail_geo_city(sv) == enc_state(sv)) by {
            reveal(stail_asn);
            assert(buf@ =~= pre_asn + enc_asnmap(sv.asn));
            assert((pre_asn + enc_asnmap(sv.asn)) + stail_geo_city(sv) =~= pre_asn + stail_asn(sv));
        }
    }
    let ghost pre_geo_city = buf@;
    write_citymap(buf, &st.geo_city);
    proof {
        assert(view_citymap(st.geo_city@) =~= sv.geo_city);
        assert(buf@ + stail_geo_country(sv) == enc_state(sv)) by {
            reveal(stail_geo_city);
            assert(buf@ =~= pre_geo_city + enc_citymap(sv.geo_city));
            assert((pre_geo_city + enc_citymap(sv.geo_city)) + stail_geo_country(sv) =~= pre_geo_city + stail_geo_city(sv));
        }
    }
    let ghost pre_geo_country = buf@;
    write_countrymap(buf, &st.geo_country);
    proof {
        assert(view_countrymap(st.geo_country@) =~= sv.geo_country);
        assert(buf@ + stail_geo_continent(sv) == enc_state(sv)) by {
            reveal(stail_geo_country);
            assert(buf@ =~= pre_geo_country + enc_countrymap(sv.geo_country));
            assert((pre_geo_country + enc_countrymap(sv.geo_country)) + stail_geo_continent(sv) =~= pre_geo_country + stail_geo_country(sv));
        }
    }
    let ghost pre_geo_continent = buf@;
    write_continentmap(buf, &st.geo_continent);
    proof {
        assert(view_continentmap(st.geo_continent@) =~= sv.geo_continent);
        assert(buf@ + stail_geo_ip_city(sv) == enc_state(sv)) by {
            reveal(stail_geo_continent);
            assert(buf@ =~= pre_geo_continent + enc_continentmap(sv.geo_continent));
            assert((pre_geo_continent + enc_continentmap(sv.geo_continent)) + stail_geo_ip_city(sv) =~= pre_geo_continent + stail_geo_continent(sv));
        }
    }
    let ghost pre_geo_ip_city = buf@;
    write_tumap(buf, &st.geo_ip_city);
    proof {
        assert(view_tumap(st.geo_ip_city@) =~= sv.geo_ip_city);
        assert(buf@ + stail_geo_ip_country(sv) == enc_state(sv)) by {
            reveal(stail_geo_ip_city);
            assert(buf@ =~= pre_geo_ip_city + enc_tumap(sv.geo_ip_city));
            assert((pre_geo_ip_city + enc_tumap(sv.geo_ip_city)) + stail_geo_ip_country(sv) =~= pre_geo_ip_city + stail_geo_ip_city(sv));
        }
    }
}

#[verifier::rlimit(100)]
#[verifier::spinoff_prover]
fn write_state_d(st: &crate::state::State, buf: &mut Vec<u8>)
    requires
        old(buf)@ + stail_geo_ip_country(st@) == enc_state(st@),
    ensures
        final(buf)@ == enc_state(st@),
{
    let ghost sv = st@;
    let ghost pre_geo_ip_country = buf@;
    write_tumap(buf, &st.geo_ip_country);
    proof {
        assert(view_tumap(st.geo_ip_country@) =~= sv.geo_ip_country);
        assert(buf@ + stail_geo_ip_continent(sv) == enc_state(sv)) by {
            reveal(stail_geo_ip_country);
            assert(buf@ =~= pre_geo_ip_country + enc_tumap(sv.geo_ip_country));
            assert((pre_geo_ip_country + enc_tumap(sv.geo_ip_country)) + stail_geo_ip_continent(sv) =~= pre_geo_ip_country + stail_geo_ip_country(sv));
        }
    }
    let ghost pre_geo_ip_continent = buf@;
    write_tumap(buf, &st.geo_ip_continent);
    proof {
        assert(view_tumap(st.geo_ip_continent@) =~= sv.geo_ip_continent);
        assert(buf@ + stail_geo_city_ip(sv) == enc_state(sv)) by {
            reveal(stail_geo_ip_continent);
            assert(buf@ =~= pre_geo_ip_continent + enc_tumap(sv.geo_ip_continent));
            assert((pre_geo_ip_continent + enc_tumap(sv.geo_ip_continent)) + stail_geo_city_ip(sv) =~= pre_geo_ip_continent + stail_geo_ip_continent(sv));
        }
    }
    let ghost pre_geo_city_ip = buf@;
    write_utmap(buf, &st.geo_city_ip);
    proof {
        assert(view_utmap(st.geo_city_ip@) =~= sv.geo_city_ip);
        assert(buf@ + stail_geo_country_ip(sv) == enc_state(sv)) by {
            reveal(stail_geo_city_ip);
            assert(buf@ =~= pre_geo_city_ip + enc_utmap(sv.geo_city_ip));
            assert((pre_geo_city_ip + enc_utmap(sv.geo_city_ip)) + stail_geo_country_ip(sv) =~= pre_geo_city_ip + stail_geo_city_ip(sv));
        }
    }
    let ghost pre_geo_country_ip = buf@;
    write_utmap(buf, &st.geo_country_ip);
    proof {
        assert(view_utmap(st.geo_country_ip@) =~= sv.geo_country_ip);
        assert(buf@ + stail_geo_continent_ip(sv) == enc_state(sv)) by {
            reveal(stail_geo_country_ip);
            assert(buf@ =~= pre_geo_country_ip + enc_utmap(sv.geo_country_ip));
            assert((pre_geo_country_ip + enc_utmap(sv.geo_country_ip)) + stail_geo_continent_ip(sv) =~= pre_geo_country_ip + stail_geo_country_ip(sv));
        }
    }
    let ghost pre_geo_continent_ip = buf@;
    write_utmap(buf, &st.geo_continent_ip);
    proof {
        assert(view_utmap(st.geo_continent_ip@) =~= sv.geo_continent_ip);
        assert(buf@ == enc_state(sv)) by {
            reveal(stail_geo_continent_ip);
            assert(buf@ =~= pre_geo_continent_ip + stail_geo_continent_ip(sv));
        }
    }
}

/// Encode the whole state as a checkpoint.
pub fn write_state(st: &crate::state::State) -> (r: Vec<u8>)
    ensures
        r@ == enc_state(st@),
{
    let mut buf: Vec<u8> = Vec::new();
    write_state_a(st, &mut buf);
    write_state_b(st, &mut buf);
    write_state_c(st, &mut buf);
    write_state_d(st, &mut buf);
    buf
}

/// Decode a checkpoint back into a state.
#[verifier::rlimit(100)]
#[verifier::spinoff_prover]
pub fn read_state(buf: &Vec<u8>) -> (r: Option<crate::state::State>)
    ensures
        match r {
            Some(st) => dec_state(buf@) == Some(st@),
            None => dec_state(buf@) is None,
        },
{
    let (d_version, p_version) = match read_u64(buf, 0) {
        None => { return None; },
        Some(t) => t,
    };
    if d_version != STATE_VERSION_1 {
        return None;
    }
    let (d_last_saved, p_last_saved) = match read_u64(buf, p_version) {
        None => { return None; },
        Some(t) => t,
    };
    let (d_nodes, p_nodes) = match read_nodemap(buf, p_last_saved) {
        None => { return None; },
        Some(t) => t,
    };
    let (d_ip_ip_addr, p_ip_ip_addr) = match read_nodemap(buf, p_nodes) {
        None => { return None; },
        Some(t) => t,
    };
    let (d_id_ip_addr, p_id_ip_addr) = match read_nodemap(buf, p_ip_ip_addr) {
        None => { return None; },
        Some(t) => t,
    };
    let (d_new_nodes, p_new_nodes) = match read_texts(buf, p_id_ip_addr) {
        None => { return None; },
        Some(t) => t,
    };
    let (d_new_ips_bgp, p_new_ips_bgp) = match read_texts(buf, p_new_nodes) {
        None => { return None; },
        Some(t) => t,
    };
    let (d_new_ips_geo, p_new_ips_geo) = match read_texts(buf, p_new_ips_bgp) {
        None => { return None; },
        Some(t) => t,
    };
    let (d_ip_asn, p_ip_asn) = match read_ipasnmap(buf, p_new_ips_geo) {
        None => { return None; },
        Some(t) => t,
    };
    let (d_asn_ip, p_asn_ip) = match read_ttmap(buf, p_ip_asn) {
        None => { return None; },
        Some(t) => t,
    };
    let (d_asn, p_asn) = match read_asnmap(buf, p_asn_ip) {
        None => { return None; },
        Some(t) => t,
    };
    let (d_geo_city, p_geo_city) = match read_citymap(buf, p_asn) {
        None => { return None; },
        Some(t) => t,
    };
    let (d_geo_country, p_geo_country) = match read_countrymap(buf, p_geo_city) {
        None => { return None; },
        Some(t) => t,
    };
    let (d_geo_continent, p_geo_continent) = match read_continentmap(buf, p_geo_country) {
        None => { return None; },
        Some(t) => t,
    };
    let (d_geo_ip_city, p_geo_ip_city) = match read_tumap(buf, p_geo_continent) {
        None => { return None; },
        Some(t) => t,
    };
    let (d_geo_ip_country, p_geo_ip_country) = match read_tumap(buf, p_geo_ip_city) {
        None => { return None; },
        Some(t) => t,
    };
    let (d_geo_ip_continent, p_geo_ip_continent) = match read_tumap(buf, p_geo_ip_country) {
        None => { return None; },
        Some(t) => t,
    };
    let (d_geo_city_ip, p_geo_city_ip) = match read_utmap(buf, p_geo_ip_continent) {
        None => { return None; },
        Some(t) => t,
    };
    let (d_geo_country_ip, p_geo_country_ip) = match read_utmap(buf, p_geo_city_ip) {
        None => { return None; },
        Some(t) => t,
    };
    let (d_geo_continent_ip, p_geo_continent_ip) = match read_utmap(buf, p_geo_country_ip) {
        None => { return None; },
        Some(t) => t,
    };
    if p_geo_continent_ip != buf.len() {
        return None;
    }
    let st = crate::state::State {
        last_saved: d_last_saved,
        nodes: d_nodes,
        ip_ip_addr: d_ip_ip_addr,
        id_ip_addr: d_id_ip_addr,
        new_nodes: d_new_nodes,
        new_ips_bgp: d_new_ips_bgp,
        new_ips_geo: d_new_ips_geo,
        ip_asn: d_ip_asn,
        asn_ip: d_asn_ip,
        asn: d_asn,
        geo_city: d_geo_city,
        geo_country: d_geo_country,
        geo_continent: d_geo_continent,
        geo_ip_city: d_geo_ip_city,
        geo_ip_country: d_geo_ip_country,
        geo_ip_continent: d_geo_ip_continent,
        geo_city_ip: d_geo_city_ip,
        geo_country_ip: d_geo_country_ip,
        geo_continent_ip: d_geo_continent_ip,
    };
    proof {
        assert(view_nodemap(st.nodes@) =~= st@.nodes);
        assert(view_nodemap(st.ip_ip_addr@) =~= st@.ip_ip_addr);
        assert(view_nodemap(st.id_ip_addr@) =~= st@.id_ip_addr);
        assert(st.new_nodes@.map_values(|t: crate::text::Text| t@) =~= st@.new_nodes);
        assert(st.new_ips_bgp@.map_values(|t: crate::text::Text| t@) =~= st@.new_ips_bgp);
        assert(st.new_ips_geo@.map_values(|t: crate::text::Text| t@) =~= st@.new_ips_geo);
        assert(view_ipasnmap(st.ip_asn@) =~= st@.ip_asn);
        assert(view_ttmap(st.asn_ip@) =~= st@.asn_ip);
        assert(view_asnmap(st.asn@) =~= st@.asn);
        assert(view_citymap(st.geo_city@) =~= st@.geo_city);
        assert(view_countrymap(st.geo_country@) =~= st@.geo_country);
        assert(view_continentmap(st.geo_continent@) =~= st@.geo_continent);
        assert(view_tumap(st.geo_ip_city@) =~= st@.geo_ip_city);
        assert(view_tumap(st.geo_ip_country@) =~= st@.geo_ip_country);
        assert(view_tumap(st.geo_ip_continent@) =~= st@.geo_ip_continent);
        assert(view_utmap(st.geo_city_ip@) =~= st@.geo_city_ip);
        assert(view_utmap(st.geo_country_ip@) =~= st@.geo_country_ip);
        assert(view_utmap(st.geo_continent_ip@) =~= st@.geo_continent_ip);
        assert(dec_state(buf@) matches Some(r2) && r2 =~= st@);
    }
    Some(st)
}

impl crate::state::State {
    /// The state as checkpoint bytes; the embedding process writes them to
    /// durable storage with an atomic replace.
    pub fn save(&self) -> (r: Vec<u8>)
        ensures
            r@ == enc_state(self@),
    {
        write_state(self)
    }

    /// Restore a checkpoint, selecting the decode path by its version tag.
    /// An unreadable checkpoint yields `None`; the caller falls back to an
    /// empty state.
    pub fn restore(bytes: &Vec<u8>) -> (r: Option<crate::state::StateVersion>)
        ensures
            match r {
                Some(v) => v matches crate::state::StateVersion::StateVersion1(st) && dec_state(
                    bytes@,
                ) == Some(st@),
                None => dec_state(bytes@) is None,
            },
    {
        match read_state(bytes) {
            Some(st) => Some(crate::state::StateVersion::StateVersion1(st)),
            None => None,
        }
    }
}

} // verus!
