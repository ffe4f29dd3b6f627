//! Dense candidate bitsets for the matching index.
//!
//! Stub ids are positions in a snapshot's stub vector: dense, ascending, declaration-ordered. A
//! candidate set is therefore a fixed-width bitset. The index intersects one bitset per dimension
//! and walks the surviving ids in ascending order, which is first-match-wins order.

use vstd::prelude::*;

verus! {

/// Bits per backing word.
pub const WORD: usize = 64;

/// Bit `k` of `w`.
pub open spec fn bit(w: u64, k: int) -> bool {
    (w >> (k as u64)) & 1u64 == 1u64
}

/// A dense set of stub ids in `0..len`.
///
/// Bits at or above `len` are always zero, so [`Self::iter`] and [`Self::count`] never report an
/// id past the end of the stub vector.
#[derive(Clone, Debug, PartialEq, Eq)]
pub struct CandidateBits {
    words: Vec<u64>,
    len: usize,
}

proof fn lemma_set_bit(w: u64, k: u64)
    requires
        k < 64,
    ensures
        forall|j: int| #![trigger bit(w | (1u64 << k), j)]
            0 <= j < 64 ==> bit(w | (1u64 << k), j) == (bit(w, j) || j == k),
{
    assert forall|j: int| #![trigger bit(w | (1u64 << k), j)] 0 <= j < 64 implies
        bit(w | (1u64 << k), j) == (bit(w, j) || j == k) by {
        let ju = j as u64;
        assert((((w | (1u64 << k)) >> ju) & 1u64 == 1u64) == ((w >> ju) & 1u64 == 1u64 || ju == k))
            by (bit_vector)
            requires
                ju < 64,
                k < 64,
        ;
    }
}

proof fn lemma_probe_bit(w: u64, k: u64)
    requires
        k < 64,
    ensures
        (w & (1u64 << k) != 0) == bit(w, k as int),
{
    assert((w & (1u64 << k) != 0) == ((w >> k) & 1u64 == 1u64)) by (bit_vector)
        requires
            k < 64,
    ;
}

proof fn lemma_and_bit(a: u64, b: u64)
    ensures
        forall|j: int| #![trigger bit(a & b, j)] 0 <= j < 64 ==> bit(a & b, j) == (bit(a, j) && bit(
            b,
            j,
        )),
{
    assert forall|j: int| #![trigger bit(a & b, j)] 0 <= j < 64 implies bit(a & b, j) == (bit(a, j)
        && bit(b, j)) by {
        let ju = j as u64;
        assert((((a & b) >> ju) & 1u64 == 1u64) == ((a >> ju) & 1u64 == 1u64 && (b >> ju) & 1u64
            == 1u64)) by (bit_vector)
            requires
                ju < 64,
        ;
    }
}

proof fn lemma_full_word()
    ensures
        forall|j: int| #![trigger bit(u64::MAX, j)] 0 <= j < 64 ==> bit(u64::MAX, j),
{
    assert forall|j: int| #![trigger bit(u64::MAX, j)] 0 <= j < 64 implies bit(u64::MAX, j) by {
        let ju = j as u64;
        assert((0xffff_ffff_ffff_ffffu64 >> ju) & 1u64 == 1u64) by (bit_vector)
            requires
                ju < 64,
        ;
    }
}

proof fn lemma_zero_word()
    ensures
        forall|j: int| #![trigger bit(0u64, j)] 0 <= j < 64 ==> !bit(0u64, j),
{
    assert forall|j: int| #![trigger bit(0u64, j)] 0 <= j < 64 implies !bit(0u64, j) by {
        let ju = j as u64;
        assert((0u64 >> ju) & 1u64 == 0u64) by (bit_vector);
    }
}

proof fn lemma_low_mask(rem: u64)
    requires
        rem < 64,
    ensures
        1u64 << rem >= 1,
        forall|w: u64, j: int| #![trigger bit(w & ((1u64 << rem) - 1) as u64, j)]
            0 <= j < 64 ==> bit(w & ((1u64 << rem) - 1) as u64, j) == (bit(w, j) && j < rem),
{
    assert(1u64 << rem >= 1) by (bit_vector)
        requires
            rem < 64,
    ;
    assert forall|w: u64, j: int| #![trigger bit(w & ((1u64 << rem) - 1) as u64, j)]
        0 <= j < 64 implies bit(w & ((1u64 << rem) - 1) as u64, j) == (bit(w, j) && j < rem) by {
        let ju = j as u64;
        assert((((w & ((1u64 << rem) - 1) as u64) >> ju) & 1u64 == 1u64) == ((w >> ju) & 1u64
            == 1u64 && ju < rem)) by (bit_vector)
            requires
                ju < 64,
                rem < 64,
        ;
    }
}

/// Clearing the lowest set bit drops exactly that bit.
proof fn lemma_clear_lowest(w: u64, z: u64)
    requires
        z < 64,
        bit(w, z as int),
        forall|j: int| #![trigger bit(w, j)] 0 <= j < z ==> !bit(w, j),
    ensures
        w != 0,
        (w & (w - 1) as u64) < w,
        forall|j: int| #![trigger bit(w & (w - 1) as u64, j)]
            0 <= j < 64 ==> bit(w & (w - 1) as u64, j) == (bit(w, j) && j != z),
{
    assert(w != 0) by (bit_vector)
        requires
            z < 64,
            (w >> z) & 1u64 == 1u64,
    ;
    assert((w & (w - 1) as u64) < w) by (bit_vector)
        requires
            w != 0,
    ;
    vstd::std_specs::bits::axiom_u64_trailing_zeros(w);
    let t = vstd::std_specs::bits::u64_trailing_zeros(w) as u64;
    assert(t == z) by {
        assert(bit(w, t as int));
        if z < t {
            assert((w >> z) & 1u64 == 0u64);
        }
    }
    let up: u64 = (64 - z) as u64;
    assert(w << up == 0);
    assert forall|j: int| #![trigger bit(w & (w - 1) as u64, j)] 0 <= j < 64 implies bit(
        w & (w - 1) as u64,
        j,
    ) == (bit(w, j) && j != z) by {
        let ju = j as u64;
        assert((((w & (w - 1) as u64) >> ju) & 1u64 == 1u64) == ((w >> ju) & 1u64 == 1u64 && ju
            != z)) by (bit_vector)
            requires
                ju < 64,
                z < 64,
                (w >> z) & 1u64 == 1u64,
                up == 64 - z,
                w << up == 0,
        ;
    }
}

impl CandidateBits {
    /// The id space is `0..self.space()`.
    pub closed spec fn space(&self) -> nat {
        self.len as nat
    }

    /// The set of ids.
    pub closed spec fn view(&self) -> Set<int> {
        Set::new(|i: int| 0 <= i < self.len && bit(self.words@[i / 64], i % 64))
    }

    /// The word vector spans the id space and holds no bit past it.
    pub closed spec fn wf(&self) -> bool {
        &&& self.words@.len() == (self.len + 63) / 64
        &&& forall|i: int|
            #![trigger self.words@[i / 64]]
            self.len <= i < 64 * self.words@.len() ==> !bit(self.words@[i / 64], i % 64)
    }

    /// Members of a well-formed set lie in its id space.
    pub proof fn lemma_members_in_space(&self)
        ensures
            forall|i: int| #[trigger] self@.contains(i) ==> 0 <= i < self.space(),
    {
    }

    /// An empty set over `0..len`.
    #[must_use]
    pub fn zeros(len: usize) -> (bits: Self)
        ensures
            bits.wf(),
            bits.space() == len,
            bits@ == Set::<int>::empty(),
    {
        let n: usize = if len % WORD == 0 {
            len / WORD
        } else {
            len / WORD + 1
        };
        let mut words: Vec<u64> = Vec::new();
        while words.len() < n
            invariant
                words@.len() <= n,
                forall|i: int| 0 <= i < words@.len() ==> words@[i] == 0u64,
            decreases n - words@.len(),
        {
            words.push(0);
        }
        let bits = CandidateBits { words, len };
        proof {
            lemma_zero_word();
            assert(bits@ =~= Set::<int>::empty());
        }
        bits
    }

    /// The full set `0..len`: the identity for [`Self::intersect_with`].
    #[must_use]
    pub fn all(len: usize) -> (bits: Self)
        ensures
            bits.wf(),
            bits.space() == len,
            bits@ == Set::new(|i: int| 0 <= i < len),
    {
        let n: usize = if len % WORD == 0 {
            len / WORD
        } else {
            len / WORD + 1
        };
        let mut words: Vec<u64> = Vec::new();
        while words.len() < n
            invariant
                words@.len() <= n,
                forall|i: int| 0 <= i < words@.len() ==> words@[i] == u64::MAX,
            decreases n - words@.len(),
        {
            words.push(u64::MAX);
        }
        let rem: usize = len % WORD;
        if rem != 0 {
            proof {
                lemma_low_mask(rem as u64);
            }
            let last: usize = n - 1;
            let kept: u64 = words[last] & ((1u64 << (rem as u64)) - 1);
            words.set(last, kept);
        }
        let bits = CandidateBits { words, len };
        proof {
            lemma_full_word();
            if rem != 0 {
                lemma_low_mask(rem as u64);
            }
            assert forall|i: int| 0 <= i < 64 * n implies bit(#[trigger] bits.words@[i / 64], i
                % 64) == (i < len) by {
                assert(0 <= i / 64 < n);
                assert(0 <= i % 64 < 64);
            }
            assert(bits@ =~= Set::new(|i: int| 0 <= i < len));
        }
        bits
    }

    /// Adds `id` to the set. Ids at or above the id space are ignored.
    pub fn set(&mut self, id: usize)
        requires
            old(self).wf(),
        ensures
            final(self).wf(),
            final(self).space() == old(self).space(),
            final(self)@ == (if id < old(self).space() {
                old(self)@.insert(id as int)
            } else {
                old(self)@
            }),
    {
        if id < self.len {
            let at: usize = id / WORD;
            let k: u64 = (id % WORD) as u64;
            let old_word: u64 = self.words[at];
            let ghost before = self.words@;
            let ghost had = self@;
            self.words.set(at, old_word | (1u64 << k));
            proof {
                lemma_set_bit(old_word, k);
                assert forall|i: int| 0 <= i < 64 * before.len() implies bit(
                    #[trigger] self.words@[i / 64],
                    i % 64,
                ) == (bit(before[i / 64], i % 64) || i == id) by {
                    assert(0 <= i % 64 < 64);
                    if i / 64 == at {
                        assert(i == at * 64 + i % 64);
                    }
                }
                assert(self@ =~= had.insert(id as int));
            }
        }
    }

    /// Whether `id` is in the set.
    #[must_use]
    pub fn contains(&self, id: usize) -> (r: bool)
        requires
            self.wf(),
        ensures
            r == self@.contains(id as int),
    {
        if id < self.len {
            let k: u64 = (id % WORD) as u64;
            proof {
                lemma_probe_bit(self.words@[id as int / 64], k);
            }
            self.words[id / WORD] & (1u64 << k) != 0
        } else {
            false
        }
    }

    /// Overwrites this set with `other`, over the same id space.
    pub fn copy_from(&mut self, other: &Self)
        requires
            old(self).wf(),
            other.wf(),
            old(self).space() == other.space(),
        ensures
            final(self).wf(),
            final(self).space() == other.space(),
            final(self)@ == other@,
    {
        let n: usize = self.words.len();
        let mut i: usize = 0;
        while i < n
            invariant
                n == self.words@.len() == other.words@.len(),
                self.len == other.len,
                i <= n,
                forall|k: int| 0 <= k < i ==> self.words@[k] == other.words@[k],
            decreases n - i,
        {
            self.words.set(i, other.words[i]);
            i += 1;
        }
        proof {
            assert(self.words@ =~= other.words@);
            assert(self@ =~= other@);
        }
    }

    /// Intersects in place: the dimension-combining operation.
    pub fn intersect_with(&mut self, other: &Self)
        requires
            old(self).wf(),
            other.wf(),
            old(self).space() == other.space(),
        ensures
            final(self).wf(),
            final(self).space() == old(self).space(),
            final(self)@ == old(self)@.intersect(other@),
    {
        let n: usize = self.words.len();
        let ghost before = self.words@;
        let ghost had = self@;
        let mut i: usize = 0;
        while i < n
            invariant
                n == self.words@.len() == other.words@.len() == before.len(),
                self.len == other.len,
                i <= n,
                forall|k: int| 0 <= k < i ==> self.words@[k] == before[k] & other.words@[k],
                forall|k: int| i <= k < n ==> self.words@[k] == before[k],
            decreases n - i,
        {
            self.words.set(i, self.words[i] & other.words[i]);
            i += 1;
        }
        proof {
            assert forall|k: int| 0 <= k < 64 * n implies bit(#[trigger] self.words@[k / 64], k
                % 64) == (bit(before[k / 64], k % 64) && bit(other.words@[k / 64], k % 64)) by {
                lemma_and_bit(before[k / 64], other.words@[k / 64]);
                assert(0 <= k % 64 < 64);
            }
            assert(self@ =~= had.intersect(other@));
        }
    }

    /// Whether no id is set. This is emptiness of the set, not of the id space.
    #[must_use]
    pub fn is_empty(&self) -> (r: bool)
        requires
            self.wf(),
        ensures
            r == (self@ == Set::<int>::empty()),
    {
        let n: usize = self.words.len();
        let mut i: usize = 0;
        while i < n
            invariant
                self.wf(),
                n == self.words@.len(),
                i <= n,
                forall|k: int| 0 <= k < i ==> self.words@[k] == 0u64,
            decreases n - i,
        {
            if self.words[i] != 0 {
                proof {
                    let w = self.words@[i as int];
                    vstd::std_specs::bits::axiom_u64_trailing_zeros(w);
                    let z = vstd::std_specs::bits::u64_trailing_zeros(w) as int;
                    let id = 64 * i + z;
                    assert(id / 64 == i && id % 64 == z);
                    assert(bit(self.words@[id / 64], id % 64));
                    assert(self@.contains(id));
                }
                return false;
            }
            i += 1;
        }
        proof {
            lemma_zero_word();
            assert(self@ =~= Set::<int>::empty());
        }
        true
    }

    /// The ids in the set, ascending: stub declaration order.
    pub fn iter(&self) -> (ids: Vec<usize>)
        requires
            self.wf(),
        ensures
            forall|i: int, j: int| 0 <= i < j < ids@.len() ==> ids@[i] < ids@[j],
            forall|i: int| 0 <= i < ids@.len() ==> self@.contains(#[trigger] ids@[i] as int),
            forall|id: int| self@.contains(id) ==> ids@.contains(id as usize),
    {
        let n: usize = self.words.len();
        let mut ids: Vec<usize> = Vec::new();
        let mut w: usize = 0;
        while w < n
            invariant
                self.wf(),
                n == self.words@.len(),
                w <= n,
                forall|i: int, j: int| 0 <= i < j < ids@.len() ==> ids@[i] < ids@[j],
                forall|i: int|
                    0 <= i < ids@.len() ==> self@.contains(#[trigger] ids@[i] as int) && ids@[i]
                        < 64 * w,
                forall|id: int| self@.contains(id) && id < 64 * w ==> ids@.contains(id as usize),
            decreases n - w,
        {
            let mut rest: u64 = self.words[w];
            while rest != 0
                invariant
                    self.wf(),
                    n == self.words@.len(),
                    w < n,
                    forall|j: int|
                        #![trigger bit(rest, j)]
                        0 <= j < 64 && bit(rest, j) ==> bit(self.words@[w as int], j),
                    forall|i: int, j: int| 0 <= i < j < ids@.len() ==> ids@[i] < ids@[j],
                    forall|i: int|
                        0 <= i < ids@.len() ==> self@.contains(#[trigger] ids@[i] as int),
                    forall|i: int, j: int|
                        #![trigger ids@[i], bit(rest, j)]
                        0 <= i < ids@.len() && 0 <= j < 64 && bit(rest, j) ==> ids@[i] < 64 * w + j,
                    forall|i: int| 0 <= i < ids@.len() ==> ids@[i] < 64 * w + 64,
                    forall|id: int|
                        self@.contains(id) && id < 64 * w + 64 && !(id >= 64 * w && bit(
                            rest,
                            id - 64 * w,
                        )) ==> ids@.contains(id as usize),
                decreases rest,
            {
                broadcast use vstd::std_specs::bits::axiom_u64_trailing_zeros;

                let z: u32 = rest.trailing_zeros();
                proof {
                    assert(bit(rest, z as int));
                    assert forall|j: int| #![trigger bit(rest, j)] 0 <= j < z implies !bit(
                        rest,
                        j,
                    ) by {
                        let ju = j as u64;
                        assert((rest >> ju) & 1u64 == 0u64);
                    }
                    lemma_clear_lowest(rest, z as u64);
                    let id = 64 * w + z;
                    assert(id / 64 == w && id % 64 == z);
                    assert(bit(self.words@[id / 64], id % 64));
                    assert(id < self.len) by {
                        if id >= self.len {
                            assert(!bit(self.words@[id / 64], id % 64));
                        }
                    }
                    assert(self@.contains(id as int));
                }
                let ghost before = ids@;
                let ghost had = rest;
                ids.push(w * WORD + z as usize);
                rest = rest & (rest - 1);
                proof {
                    assert forall|id: int|
                        self@.contains(id) && id < 64 * w + 64 && !(id >= 64 * w && bit(
                            rest,
                            id - 64 * w,
                        )) implies ids@.contains(id as usize) by {
                        if id == 64 * w + z {
                            assert(ids@[before.len() as int] == id as usize);
                        } else {
                            if id >= 64 * w {
                                assert(!bit(had, id - 64 * w));
                            }
                            assert(before.contains(id as usize));
                            let at = choose|at: int|
                                0 <= at < before.len() && before[at] == id as usize;
                            assert(ids@[at] == id as usize);
                        }
                    }
                }
            }
            proof {
                lemma_zero_word();
            }
            w += 1;
        }
        proof {
            self.lemma_members_in_space();
        }
        ids
    }

    /// How many ids are in the set.
    #[must_use]
    pub fn count(&self) -> (n: usize)
        requires
            self.wf(),
        ensures
            self@.finite(),
            n == self@.len(),
    {
        let ids: Vec<usize> = self.iter();
        proof {
            lemma_ascending_lists_set(ids@, self@);
        }
        ids.len()
    }
}

/// An ascending list that covers a set exactly has the set's size.
proof fn lemma_ascending_lists_set(ids: Seq<usize>, s: Set<int>)
    requires
        forall|i: int, j: int| 0 <= i < j < ids.len() ==> ids[i] < ids[j],
        forall|i: int| 0 <= i < ids.len() ==> s.contains(#[trigger] ids[i] as int),
        forall|id: int| s.contains(id) ==> 0 <= id <= usize::MAX && ids.contains(id as usize),
    ensures
        s.finite(),
        s.len() == ids.len(),
    decreases ids.len(),
{
    if ids.len() == 0 {
        assert(s =~= Set::<int>::empty()) by {
            assert forall|id: int| !s.contains(id) by {
                if s.contains(id) {
                    assert(ids.contains(id as usize));
                }
            }
        }
    } else {
        let rest = ids.drop_last();
        let top = ids.last() as int;
        let smaller = s.remove(top);
        assert(s.contains(ids[ids.len() - 1] as int));
        assert forall|i: int| 0 <= i < rest.len() implies smaller.contains(
            #[trigger] rest[i] as int,
        ) by {
            assert(rest[i] == ids[i]);
            assert(ids[i] < ids[ids.len() - 1]);
        }
        assert forall|id: int| smaller.contains(id) implies 0 <= id <= usize::MAX && rest.contains(
            id as usize,
        ) by {
            assert(ids.contains(id as usize));
            let at = choose|at: int| 0 <= at < ids.len() && ids[at] == id as usize;
            assert(at < rest.len());
            assert(rest[at] == id as usize);
        }
        lemma_ascending_lists_set(rest, smaller);
        assert(s =~= smaller.insert(top));
    }
}

/// Intersecting with the full set changes nothing.
pub proof fn law_all_is_the_intersection_identity(full: CandidateBits, b: CandidateBits)
    requires
        full.space() == b.space(),
        full@ == Set::new(|i: int| 0 <= i < full.space()),
    ensures
        full@.intersect(b@) == b@,
        b@.intersect(full@) == b@,
{
    b.lemma_members_in_space();
    assert(full@.intersect(b@) =~= b@);
    assert(b@.intersect(full@) =~= b@);
}

/// Intersection never puts an id back: once a set is empty it stays empty.
pub proof fn law_intersection_is_monotone(a: CandidateBits, b: CandidateBits)
    ensures
        a@.intersect(b@).subset_of(a@),
        a@ == Set::<int>::empty() ==> a@.intersect(b@) == Set::<int>::empty(),
{
    assert(a@ == Set::<int>::empty() ==> a@.intersect(b@) =~= Set::<int>::empty());
}

} // verus!
