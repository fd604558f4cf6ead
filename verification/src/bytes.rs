//! Numbers as little-endian bytes, the form in which the store keeps both
//! the header fields and the samples of an image.
use vstd::prelude::*;

verus! {

/// The number that a run of bytes stands for, lowest byte first.
pub open spec fn le_value(bytes: Seq<u8>) -> nat
    decreases bytes.len(),
{
    if bytes.len() == 0 {
        0
    } else {
        bytes[0] as nat + 256 * le_value(bytes.drop_first())
    }
}

/// The `n` lowest bytes of a number, lowest byte first.
pub open spec fn le_bytes(v: nat, n: nat) -> Seq<u8>
    decreases n,
{
    if n == 0 {
        Seq::empty()
    } else {
        seq![(v % 256) as u8] + le_bytes(v / 256, (n - 1) as nat)
    }
}

/// The first number that `n` bytes cannot hold: 256 to the power `n`.
pub open spec fn le_limit(n: nat) -> nat
    decreases n,
{
    if n == 0 {
        1
    } else {
        256 * le_limit((n - 1) as nat)
    }
}

/// What is left of a number when it is kept in `n` bytes: its `n` lowest
/// bytes.
pub open spec fn le_low(v: nat, n: nat) -> nat {
    v % le_limit(n)
}

/// The limits of the sizes that occur: one, two, four and eight bytes.
pub proof fn lemma_le_limit_values()
    ensures
        le_limit(0) == 1,
        le_limit(1) == 0x100,
        le_limit(2) == 0x1_0000,
        le_limit(3) == 0x100_0000,
        le_limit(4) == 0x1_0000_0000,
        le_limit(7) == 0x100_0000_0000_0000,
        le_limit(8) == 0x1_0000_0000_0000_0000,
{
    reveal_with_fuel(le_limit, 9);
}

/// More bytes hold larger numbers.
pub proof fn lemma_le_limit_monotonic(a: nat, b: nat)
    requires
        a <= b,
    ensures
        1 <= le_limit(a) <= le_limit(b),
    decreases b,
{
    if b == 0 {
    } else if a == b {
        lemma_le_limit_monotonic((a - 1) as nat, (b - 1) as nat);
    } else {
        lemma_le_limit_monotonic(a, (b - 1) as nat);
    }
}

/// `le_bytes` gives as many bytes as were asked for.
pub proof fn lemma_le_bytes_len(v: nat, n: nat)
    ensures
        le_bytes(v, n).len() == n,
    decreases n,
{
    if n > 0 {
        lemma_le_bytes_len(v / 256, (n - 1) as nat);
    }
}

/// The value of a run of bytes is below the limit of its length.
pub proof fn lemma_le_value_bound(bytes: Seq<u8>)
    ensures
        le_value(bytes) < le_limit(bytes.len()),
    decreases bytes.len(),
{
    if bytes.len() > 0 {
        lemma_le_value_bound(bytes.drop_first());
    }
}

/// Reading back the bytes of a number gives the number, provided that the
/// bytes could hold it.
pub proof fn lemma_le_value_of_bytes(v: nat, n: nat)
    requires
        v < le_limit(n),
    ensures
        le_value(le_bytes(v, n)) == v,
    decreases n,
{
    if n > 0 {
        let rest = le_bytes(v / 256, (n - 1) as nat);
        let all = le_bytes(v, n);
        lemma_le_bytes_len(v / 256, (n - 1) as nat);
        assert(all.drop_first() == rest);
        lemma_le_value_of_bytes(v / 256, (n - 1) as nat);
    }
}

/// Writing out the value of a run of bytes gives the same bytes.
pub proof fn lemma_le_bytes_of_value(bytes: Seq<u8>)
    ensures
        le_bytes(le_value(bytes), bytes.len()) == bytes,
    decreases bytes.len(),
{
    if bytes.len() > 0 {
        let rest = bytes.drop_first();
        lemma_le_bytes_of_value(rest);
        let v = le_value(bytes);
        assert(v % 256 == bytes[0] as nat);
        assert(v / 256 == le_value(rest));
        assert(le_bytes(v, bytes.len()) == seq![bytes[0]] + rest);
        assert(seq![bytes[0]] + rest == bytes);
    }
}

/// Reads the number that the `n` bytes from index `at` on stand for.
pub fn read_le(bytes: &[u8], at: usize, n: usize) -> (v: u64)
    requires
        n <= 8,
        at + n <= bytes@.len(),
    ensures
        v == le_value(bytes@.subrange(at as int, at + n)),
{
    let len = bytes.len();
    let mut v: u64 = 0;
    let mut i: usize = n;
    while i > 0
        invariant
            i <= n <= 8,
            at + n <= bytes@.len(),
            len == bytes@.len(),
            v == le_value(bytes@.subrange(at + i, at + n)),
        decreases i,
    {
        i = i - 1;
        proof {
            let tail = bytes@.subrange(at + i + 1, at + n);
            let now = bytes@.subrange(at + i, at + n);
            lemma_le_value_bound(tail);
            lemma_le_limit_monotonic(tail.len(), 7);
            lemma_le_limit_values();
            assert(now.drop_first() == tail);
            assert(now[0] == bytes@[at + i]);
        }
        v = v * 256 + bytes[at + i] as u64;
    }
    v
}

/// The `n` lowest bytes of `v`, lowest byte first.
pub fn to_le(v: u64, n: usize) -> (out: Vec<u8>)
    ensures
        out@ == le_bytes(v as nat, n as nat),
        out@.len() == n,
{
    let mut out: Vec<u8> = Vec::new();
    let mut x: u64 = v;
    let mut i: usize = 0;
    while i < n
        invariant
            i <= n,
            out@.len() == i,
            out@ + le_bytes(x as nat, (n - i) as nat) == le_bytes(v as nat, n as nat),
        decreases n - i,
    {
        proof {
            let rest = le_bytes((x / 256) as nat, (n - i - 1) as nat);
            assert((out@.push((x % 256) as u8)) + rest == out@ + (seq![(x % 256) as u8] + rest));
        }
        out.push((x % 256) as u8);
        x = x / 256;
        i = i + 1;
    }
    proof {
        lemma_le_bytes_len(v as nat, n as nat);
        assert(out@ + Seq::<u8>::empty() == out@);
    }
    out
}

/// Writes the `n` lowest bytes of `v` over the bytes from index `at` on.
pub fn write_le(out: &mut Vec<u8>, at: usize, n: usize, v: u64)
    requires
        at + n <= old(out)@.len(),
    ensures
        final(out)@ == old(out)@.subrange(0, at as int) + le_bytes(v as nat, n as nat) + old(
            out,
        )@.subrange(at + n, old(out)@.len() as int),
        final(out)@.len() == old(out)@.len(),
{
    let src = to_le(v, n);
    let len = out.len();
    let mut i: usize = 0;
    while i < n
        invariant
            i <= n,
            len == out@.len(),
            src@.len() == n,
            at + n <= out@.len(),
            out@.len() == old(out)@.len(),
            out@ == old(out)@.subrange(0, at as int) + src@.subrange(0, i as int) + old(
                out,
            )@.subrange(at + i, old(out)@.len() as int),
        decreases n - i,
    {
        out.set(at + i, src[i]);
        i = i + 1;
    }
    assert(src@.subrange(0, n as int) == src@);
}

/// The numbers that a run of bytes stands for when it is cut into `n`
/// words of `e` bytes each.
pub open spec fn spec_words(bytes: Seq<u8>, e: nat, n: nat) -> Seq<nat> {
    Seq::new(n, |i: int| le_value(bytes.subrange(i * e, i * e + e)))
}

/// The bytes of a run of words of `e` bytes each, one word after the
/// other. A word too large for `e` bytes loses its high bytes.
pub open spec fn spec_words_bytes(words: Seq<nat>, e: nat) -> Seq<u8>
    decreases words.len(),
{
    if words.len() == 0 {
        Seq::empty()
    } else {
        spec_words_bytes(words.drop_last(), e) + le_bytes(words.last(), e)
    }
}

/// A run of `n` words of `e` bytes takes `n * e` bytes.
pub proof fn lemma_words_bytes_len(words: Seq<nat>, e: nat)
    ensures
        spec_words_bytes(words, e).len() == words.len() * e,
    decreases words.len(),
{
    if words.len() > 0 {
        lemma_words_bytes_len(words.drop_last(), e);
        lemma_le_bytes_len(words.last(), e);
        assert((words.len() - 1) * e + e == words.len() * e) by (nonlinear_arith);
    } else {
        assert(0 * e == 0) by (nonlinear_arith);
    }
}

/// Word `i` of a run of words stands at byte `i * e`.
pub proof fn lemma_words_bytes_at(words: Seq<nat>, e: nat, i: int)
    requires
        0 <= i < words.len(),
    ensures
        i * e + e <= spec_words_bytes(words, e).len(),
        spec_words_bytes(words, e).subrange(i * e, i * e + e) == le_bytes(words[i], e),
    decreases words.len(),
{
    let all = spec_words_bytes(words, e);
    let head = spec_words_bytes(words.drop_last(), e);
    lemma_words_bytes_len(words, e);
    lemma_words_bytes_len(words.drop_last(), e);
    lemma_le_bytes_len(words.last(), e);
    assert((words.len() - 1) * e + e == words.len() * e) by (nonlinear_arith);
    if i == words.len() - 1 {
        assert(all.subrange(i * e, i * e + e) == le_bytes(words[i], e));
    } else {
        lemma_words_bytes_at(words.drop_last(), e, i);
        assert(i * e + e <= (words.len() - 1) * e) by (nonlinear_arith)
            requires
                i + 1 <= words.len() - 1,
        ;
        assert(all.subrange(i * e, i * e + e) == head.subrange(i * e, i * e + e));
    }
}

/// Cutting the bytes of a run of words into words again gives the words,
/// each reduced to what `e` bytes can hold.
pub proof fn lemma_words_of_words_bytes(words: Seq<nat>, e: nat)
    ensures
        spec_words(spec_words_bytes(words, e), e, words.len()) == words.map_values(|w: nat| le_low(w, e)),
{
    let bytes = spec_words_bytes(words, e);
    let cut = spec_words(bytes, e, words.len());
    let reduced = words.map_values(|w: nat| le_low(w, e));
    assert forall|i: int| 0 <= i < words.len() implies cut[i] == reduced[i] by {
        lemma_words_bytes_at(words, e, i);
        lemma_le_value_of_low_bytes(words[i], e);
    }
    assert(cut =~= reduced);
}

/// Writing out the words of a run of `n * e` bytes gives the same bytes.
pub proof fn lemma_words_bytes_of_words(bytes: Seq<u8>, e: nat, n: nat)
    requires
        bytes.len() == n * e,
    ensures
        spec_words_bytes(spec_words(bytes, e, n), e) == bytes,
    decreases n,
{
    let words = spec_words(bytes, e, n);
    if n == 0 {
        assert(0 * e == 0) by (nonlinear_arith);
        assert(bytes =~= Seq::empty());
    } else {
        let m = (n - 1) as nat;
        assert(m * e + e == n * e) by (nonlinear_arith)
            requires
                m + 1 == n,
        ;
        let head = bytes.subrange(0, (m * e) as int);
        let last = bytes.subrange((m * e) as int, (m * e + e) as int);
        assert forall|i: int| 0 <= i < m implies #[trigger] spec_words(head, e, m)[i]
            == words.drop_last()[i] by {
            assert(i * e + e <= m * e) by (nonlinear_arith)
                requires
                    0 <= i,
                    i + 1 <= m,
            ;
            assert(head.subrange(i * e, i * e + e) == bytes.subrange(i * e, i * e + e));
        }
        assert(spec_words(head, e, m) =~= words.drop_last());
        lemma_words_bytes_of_words(head, e, m);
        lemma_le_bytes_of_value(last);
        assert(bytes =~= head + last);
    }
}

/// The value of the `n` lowest bytes of a number is the number reduced to
/// what `n` bytes can hold.
pub proof fn lemma_le_value_of_low_bytes(v: nat, n: nat)
    ensures
        le_value(le_bytes(v, n)) == le_low(v, n),
    decreases n,
{
    if n > 0 {
        let m = (n - 1) as nat;
        let rest = le_bytes(v / 256, m);
        lemma_le_bytes_len(v / 256, m);
        assert(le_bytes(v, n).drop_first() == rest);
        lemma_le_value_of_low_bytes(v / 256, m);
        lemma_le_limit_monotonic(0, m);
        let l = le_limit(m);
        vstd::arithmetic::div_mod::lemma_mod_breakdown(v as int, 256, l as int);
    }
}

/// The first `n` words of a run of bytes depend on its first `n * e` bytes
/// alone.
pub proof fn lemma_words_prefix(a: Seq<u8>, b: Seq<u8>, e: nat, n: nat)
    requires
        n * e <= a.len(),
        n * e <= b.len(),
        a.subrange(0, (n * e) as int) == b.subrange(0, (n * e) as int),
    ensures
        spec_words(a, e, n) == spec_words(b, e, n),
{
    let wa = spec_words(a, e, n);
    let wb = spec_words(b, e, n);
    assert forall|i: int| 0 <= i < n implies wa[i] == wb[i] by {
        assert(0 <= i * e && i * e + e <= n * e) by (nonlinear_arith)
            requires
                0 <= i,
                i + 1 <= n,
        ;
        let pa = a.subrange(0, (n * e) as int);
        let pb = b.subrange(0, (n * e) as int);
        assert(a.subrange(i * e, i * e + e) =~= pa.subrange(i * e, i * e + e));
        assert(b.subrange(i * e, i * e + e) =~= pb.subrange(i * e, i * e + e));
    }
    assert(wa =~= wb);
}

/// Reads `n` words of `e` bytes each from index `at` on.
pub fn read_words(bytes: &[u8], at: usize, e: usize, n: usize) -> (words: Vec<u32>)
    requires
        e <= 4,
        at + n * e <= bytes@.len(),
    ensures
        words@.len() == n,
        words@.map_values(|w: u32| w as nat) == spec_words(
            bytes@.subrange(at as int, at + n * e),
            e as nat,
            n as nat,
        ),
{
    let len = bytes.len();
    let mut words: Vec<u32> = Vec::new();
    let mut i: usize = 0;
    let mut pos: usize = at;
    let ghost src = bytes@.subrange(at as int, at + n * e);
    while i < n
        invariant
            i <= n,
            e <= 4,
            len == bytes@.len(),
            at + n * e <= len,
            pos == at + i * e,
            src == bytes@.subrange(at as int, at + n * e),
            words@.len() == i,
            forall|j: int|
                0 <= j < i ==> #[trigger] words@[j] as nat == le_value(
                    src.subrange(j * e, j * e + e),
                ),
        decreases n - i,
    {
        proof {
            assert(i * e + e <= n * e) by (nonlinear_arith)
                requires
                    i + 1 <= n,
            ;
            assert(i * e + e == (i + 1) * e) by (nonlinear_arith);
            let piece = bytes@.subrange(pos as int, pos + e);
            assert(src.subrange(i * e, i * e + e) == piece);
            lemma_le_value_bound(piece);
            lemma_le_limit_monotonic(e as nat, 4);
            lemma_le_limit_values();
        }
        let w = read_le(bytes, pos, e);
        words.push(w as u32);
        pos = pos + e;
        i = i + 1;
    }
    assert(words@.map_values(|w: u32| w as nat) =~= spec_words(src, e as nat, n as nat));
    words
}

/// Writes words of `e` bytes each over the bytes from index `at` on.
pub fn write_words(out: &mut Vec<u8>, at: usize, e: usize, words: &[u32])
    requires
        at + words@.len() * e <= old(out)@.len(),
    ensures
        final(out)@.len() == old(out)@.len(),
        final(out)@ == old(out)@.subrange(0, at as int) + spec_words_bytes(
            words@.map_values(|w: u32| w as nat),
            e as nat,
        ) + old(out)@.subrange(at + words@.len() * e, old(out)@.len() as int),
{
    let len = out.len();
    let n = words.len();
    let ghost all = words@.map_values(|w: u32| w as nat);
    let mut i: usize = 0;
    let mut pos: usize = at;
    proof {
        assert(0 * e == 0) by (nonlinear_arith);
        assert(all.take(0) =~= Seq::<nat>::empty());
        assert(out@ =~= out@.subrange(0, at as int) + Seq::<u8>::empty() + out@.subrange(
            at as int,
            len as int,
        ));
    }
    while i < n
        invariant
            i <= n,
            n == words@.len(),
            all == words@.map_values(|w: u32| w as nat),
            len == out@.len(),
            len == old(out)@.len(),
            at + n * e <= len,
            pos == at + i * e,
            out@ == old(out)@.subrange(0, at as int) + spec_words_bytes(all.take(i as int), e as nat)
                + old(out)@.subrange(at + i * e, len as int),
        decreases n - i,
    {
        proof {
            assert(i * e + e <= n * e) by (nonlinear_arith)
                requires
                    i + 1 <= n,
            ;
            assert(i * e + e == (i + 1) * e) by (nonlinear_arith);
            lemma_words_bytes_len(all.take(i as int), e as nat);
            assert(all.take(i + 1).drop_last() =~= all.take(i as int));
            lemma_le_bytes_len(words@[i as int] as nat, e as nat);
        }
        let ghost before = out@;
        write_le(out, pos, e, words[i] as u64);
        proof {
            let done = spec_words_bytes(all.take(i as int), e as nat);
            let piece = le_bytes(words@[i as int] as nat, e as nat);
            assert(before.subrange(0, pos as int) =~= old(out)@.subrange(0, at as int) + done);
            assert(before.subrange(pos + e, len as int) =~= old(out)@.subrange(
                at + (i + 1) * e,
                len as int,
            ));
            assert(spec_words_bytes(all.take(i + 1), e as nat) == done + piece);
            assert(out@ =~= old(out)@.subrange(0, at as int) + (done + piece) + old(
                out,
            )@.subrange(at + (i + 1) * e, len as int));
        }
        pos = pos + e;
        i = i + 1;
    }
    assert(all.take(n as int) =~= all);
}

} // verus!
