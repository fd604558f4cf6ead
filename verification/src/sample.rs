//! The integer types as which the samples of an image can be read.
use crate::bytes::{
    le_limit, le_low, lemma_le_limit_values, lemma_le_value_bound, lemma_words_bytes_of_words,
    lemma_words_of_words_bytes, read_words, spec_words, spec_words_bytes, write_words,
};
use vstd::prelude::*;

verus! {

/// A type of sample. A sample of `spec_size()` bytes is kept as a word, the
/// number that its bytes stand for, lowest byte first; a signed sample is
/// kept in two's complement.
pub trait Sample: Sized + Copy {
    /// The number of bytes of a sample.
    spec fn spec_size() -> nat;

    /// The sample that a word stands for.
    spec fn spec_from_word(w: nat) -> Self;

    /// The word as which a sample is kept.
    spec fn spec_to_word(self) -> nat;

    /// A sample has one, two or four bytes, and samples and the words that
    /// fit their size stand for each other one to one.
    proof fn lemma_sample_words()
        ensures
            Self::spec_size() == 1 || Self::spec_size() == 2 || Self::spec_size() == 4,
            forall|v: Self| #[trigger] v.spec_to_word() < le_limit(Self::spec_size()),
            forall|v: Self| Self::spec_from_word(#[trigger] v.spec_to_word()) == v,
            forall|w: nat|
                w < le_limit(Self::spec_size()) ==> (#[trigger] Self::spec_from_word(
                    w,
                )).spec_to_word() == w,
    ;

    /// The number of bytes of a sample.
    fn size() -> (n: usize)
        ensures
            n == Self::spec_size(),
    ;

    /// The sample that a word stands for.
    fn from_word(w: u32) -> (v: Self)
        requires
            w < le_limit(Self::spec_size()),
        ensures
            v == Self::spec_from_word(w as nat),
    ;

    /// The word as which the sample is kept.
    fn to_word(self) -> (w: u32)
        ensures
            w == self.spec_to_word(),
    ;
}

impl Sample for u8 {
    open spec fn spec_size() -> nat {
        1
    }

    open spec fn spec_from_word(w: nat) -> u8 {
        w as u8
    }

    open spec fn spec_to_word(self) -> nat {
        self as nat
    }

    proof fn lemma_sample_words() {
        lemma_le_limit_values();
    }

    fn size() -> (n: usize) {
        1
    }

    fn from_word(w: u32) -> (v: u8) {
        proof {
            lemma_le_limit_values();
        }
        w as u8
    }

    fn to_word(self) -> (w: u32) {
        self as u32
    }
}

impl Sample for u16 {
    open spec fn spec_size() -> nat {
        2
    }

    open spec fn spec_from_word(w: nat) -> u16 {
        w as u16
    }

    open spec fn spec_to_word(self) -> nat {
        self as nat
    }

    proof fn lemma_sample_words() {
        lemma_le_limit_values();
    }

    fn size() -> (n: usize) {
        2
    }

    fn from_word(w: u32) -> (v: u16) {
        proof {
            lemma_le_limit_values();
        }
        w as u16
    }

    fn to_word(self) -> (w: u32) {
        self as u32
    }
}

impl Sample for u32 {
    open spec fn spec_size() -> nat {
        4
    }

    open spec fn spec_from_word(w: nat) -> u32 {
        w as u32
    }

    open spec fn spec_to_word(self) -> nat {
        self as nat
    }

    proof fn lemma_sample_words() {
        lemma_le_limit_values();
    }

    fn size() -> (n: usize) {
        4
    }

    fn from_word(w: u32) -> (v: u32) {
        w
    }

    fn to_word(self) -> (w: u32) {
        self
    }
}

impl Sample for i8 {
    open spec fn spec_size() -> nat {
        1
    }

    open spec fn spec_from_word(w: nat) -> i8 {
        if w < 0x80 {
            w as i8
        } else {
            (w - 0x100) as i8
        }
    }

    open spec fn spec_to_word(self) -> nat {
        if self >= 0 {
            self as nat
        } else {
            (self + 0x100) as nat
        }
    }

    proof fn lemma_sample_words() {
        lemma_le_limit_values();
    }

    fn size() -> (n: usize) {
        1
    }

    fn from_word(w: u32) -> (v: i8) {
        proof {
            lemma_le_limit_values();
        }
        if w < 0x80 {
            w as i8
        } else {
            (w as i32 - 0x100) as i8
        }
    }

    fn to_word(self) -> (w: u32) {
        if self >= 0 {
            self as u32
        } else {
            (self as i32 + 0x100) as u32
        }
    }
}

impl Sample for i16 {
    open spec fn spec_size() -> nat {
        2
    }

    open spec fn spec_from_word(w: nat) -> i16 {
        if w < 0x8000 {
            w as i16
        } else {
            (w - 0x1_0000) as i16
        }
    }

    open spec fn spec_to_word(self) -> nat {
        if self >= 0 {
            self as nat
        } else {
            (self + 0x1_0000) as nat
        }
    }

    proof fn lemma_sample_words() {
        lemma_le_limit_values();
    }

    fn size() -> (n: usize) {
        2
    }

    fn from_word(w: u32) -> (v: i16) {
        proof {
            lemma_le_limit_values();
        }
        if w < 0x8000 {
            w as i16
        } else {
            (w as i32 - 0x1_0000) as i16
        }
    }

    fn to_word(self) -> (w: u32) {
        if self >= 0 {
            self as u32
        } else {
            (self as i32 + 0x1_0000) as u32
        }
    }
}

impl Sample for i32 {
    open spec fn spec_size() -> nat {
        4
    }

    open spec fn spec_from_word(w: nat) -> i32 {
        if w < 0x8000_0000 {
            w as i32
        } else {
            (w - 0x1_0000_0000) as i32
        }
    }

    open spec fn spec_to_word(self) -> nat {
        if self >= 0 {
            self as nat
        } else {
            (self + 0x1_0000_0000) as nat
        }
    }

    proof fn lemma_sample_words() {
        lemma_le_limit_values();
    }

    fn size() -> (n: usize) {
        4
    }

    fn from_word(w: u32) -> (v: i32) {
        if w < 0x8000_0000 {
            w as i32
        } else {
            (w as i64 - 0x1_0000_0000) as i32
        }
    }

    fn to_word(self) -> (w: u32) {
        if self >= 0 {
            self as u32
        } else {
            (self as i64 + 0x1_0000_0000) as u32
        }
    }
}

/// The samples that a run of bytes stands for when it is read as `n`
/// samples of type `T`.
pub open spec fn spec_samples<T: Sample>(bytes: Seq<u8>, n: nat) -> Seq<T> {
    spec_words(bytes, T::spec_size(), n).map_values(|w: nat| T::spec_from_word(w))
}

/// The bytes of a run of samples, one sample after the other.
pub open spec fn spec_sample_bytes<T: Sample>(samples: Seq<T>) -> Seq<u8> {
    spec_words_bytes(samples.map_values(|v: T| v.spec_to_word()), T::spec_size())
}

/// Reading the bytes of a run of samples gives the samples back.
pub proof fn lemma_samples_of_sample_bytes<T: Sample>(samples: Seq<T>)
    ensures
        spec_samples::<T>(spec_sample_bytes::<T>(samples), samples.len()) == samples,
{
    let words = samples.map_values(|v: T| v.spec_to_word());
    T::lemma_sample_words();
    lemma_words_of_words_bytes(words, T::spec_size());
    let back = spec_samples::<T>(spec_sample_bytes::<T>(samples), samples.len());
    assert forall|i: int| 0 <= i < samples.len() implies back[i] == samples[i] by {
        assert(words[i] == samples[i].spec_to_word());
        assert(le_low(words[i], T::spec_size()) == words[i]) by (nonlinear_arith)
            requires
                words[i] < le_limit(T::spec_size()),
                le_low(words[i], T::spec_size()) == words[i] % le_limit(T::spec_size()),
        ;
    }
    assert(back =~= samples);
}

/// Writing out the samples read from a run of bytes gives the bytes back.
pub proof fn lemma_sample_bytes_of_samples<T: Sample>(bytes: Seq<u8>, n: nat)
    requires
        bytes.len() == n * T::spec_size(),
    ensures
        spec_sample_bytes::<T>(spec_samples::<T>(bytes, n)) == bytes,
{
    let e = T::spec_size();
    let words = spec_words(bytes, e, n);
    let samples = spec_samples::<T>(bytes, n);
    T::lemma_sample_words();
    assert forall|i: int| 0 <= i < n implies #[trigger] samples[i].spec_to_word()
        == words[i] by {
        assert(i * e + e <= n * e) by (nonlinear_arith)
            requires
                0 <= i,
                i + 1 <= n,
        ;
        lemma_le_value_bound(bytes.subrange(i * e, i * e + e));
    }
    assert(samples.map_values(|v: T| v.spec_to_word()) =~= words);
    lemma_words_bytes_of_words(bytes, e, n);
}

/// Reads `n` samples from index `at` on.
pub fn read_samples<T: Sample>(bytes: &[u8], at: usize, n: usize) -> (samples: Vec<T>)
    requires
        at + n * T::spec_size() <= bytes@.len(),
    ensures
        samples@ == spec_samples::<T>(
            bytes@.subrange(at as int, at + n * T::spec_size()),
            n as nat,
        ),
{
    proof {
        T::lemma_sample_words();
    }
    let e = T::size();
    let words = read_words(bytes, at, e, n);
    let ghost src = bytes@.subrange(at as int, at + n * e);
    let ghost cut = spec_words(src, e as nat, n as nat);
    let mut samples: Vec<T> = Vec::new();
    let mut i: usize = 0;
    while i < n
        invariant
            i <= n,
            e == T::spec_size(),
            words@.len() == n,
            src.len() == n * e,
            cut == spec_words(src, e as nat, n as nat),
            words@.map_values(|w: u32| w as nat) == cut,
            samples@.len() == i,
            forall|j: int| 0 <= j < i ==> #[trigger] samples@[j] == T::spec_from_word(cut[j]),
        decreases n - i,
    {
        proof {
            assert(i * e + e <= n * e) by (nonlinear_arith)
                requires
                    i + 1 <= n,
            ;
            lemma_le_value_bound(src.subrange(i * e, i * e + e));
            assert(words@.map_values(|w: u32| w as nat)[i as int] == words@[i as int] as nat);
        }
        samples.push(T::from_word(words[i]));
        i = i + 1;
    }
    assert(samples@ =~= spec_samples::<T>(src, n as nat));
    samples
}

/// Writes samples over the bytes from index `at` on.
pub fn write_samples<T: Sample>(out: &mut Vec<u8>, at: usize, samples: &[T])
    requires
        at + samples@.len() * T::spec_size() <= old(out)@.len(),
    ensures
        final(out)@.len() == old(out)@.len(),
        final(out)@ == old(out)@.subrange(0, at as int) + spec_sample_bytes::<T>(samples@) + old(
            out,
        )@.subrange(at + samples@.len() * T::spec_size(), old(out)@.len() as int),
{
    let n = samples.len();
    let mut words: Vec<u32> = Vec::new();
    let mut i: usize = 0;
    while i < n
        invariant
            i <= n,
            n == samples@.len(),
            words@.len() == i,
            forall|j: int| 0 <= j < i ==> #[trigger] words@[j] as nat == samples@[j].spec_to_word(),
        decreases n - i,
    {
        words.push(samples[i].to_word());
        i = i + 1;
    }
    assert(words@.map_values(|w: u32| w as nat) =~= samples@.map_values(
        |v: T| v.spec_to_word(),
    ));
    write_words(out, at, T::size(), words.as_slice());
}

} // verus!
