use vstd::prelude::*;
use vstd::set_lib::{lemma_len_subset, range_set_properties};
use crate::configuration::{ConfigError, Configuration, configuration_outcome};
use crate::hashing::{HashManager, Hashing, is_hash_count_for};
use crate::storage::{Storage, bit_of, bytes_for_bits};

verus! {

/// Why a filter could not be built.
#[derive(Debug)]
pub enum BloomFilterError {
    Configuration(ConfigError),
    Hashing(String),
    Storage(String),
}

/// The indices of the set bits.
pub open spec fn set_bits(bits: Seq<bool>) -> Set<int> {
    Set::new(|j: int| 0 <= j < bits.len() && bits[j])
}

proof fn lemma_set_bits_len(bits: Seq<bool>)
    ensures
        set_bits(bits).finite(),
        set_bits(bits).len() <= bits.len(),
{
    let range = Set::<int>::range(0, bits.len() as int);
    range_set_properties::<int>(0, bits.len() as int);
    assert(set_bits(bits).subset_of(range));
    lemma_len_subset(set_bits(bits), range);
}

/// A Bloom filter: entries are hashed to `k` positions in an array of `m`
/// bits; an entry is reported present when all of its positions are set.
pub struct BloomFilter<H> {
    configuration: Configuration,
    manager: HashManager<H>,
    storage: Storage,
}

impl<H: Hashing> BloomFilter<H> {
    /// The bit array.
    pub closed spec fn bits(&self) -> Seq<bool> {
        self.storage@
    }

    /// The packed bytes of the bit array.
    pub closed spec fn bytes(&self) -> Seq<u8> {
        self.storage.bytes()
    }

    /// The count of inserts that found all of their positions clear.
    pub closed spec fn unique_entries(&self) -> nat {
        self.configuration.unique_entries()
    }

    /// `m`, the number of bits.
    pub closed spec fn total_bits(&self) -> nat {
        self.manager.total_bits()
    }

    /// `k`, the number of positions per entry.
    pub closed spec fn hash_count(&self) -> nat {
        self.manager.hash_count()
    }

    pub closed spec fn strategy(&self) -> H {
        self.manager.strategy()
    }

    /// Position `i` of `entry`: what the strategy gives, reduced below `m`.
    pub open spec fn position(&self, i: nat, entry: Seq<char>) -> nat {
        self.strategy().spec_hash(i, self.total_bits(), entry) % self.total_bits()
    }

    pub closed spec fn wf(&self) -> bool {
        &&& self.configuration.wf()
        &&& self.manager.wf()
        &&& self.storage.wf()
        &&& self.storage@.len() == self.manager.total_bits()
        &&& self.configuration.total_bits() == self.manager.total_bits()
        &&& self.configuration.unique_entries() <= set_bits(self.storage@).len()
    }

    /// Whether bit `j` is one of the positions of `entry`.
    pub open spec fn hits(&self, entry: Seq<char>, j: int) -> bool {
        exists|i: nat| i < self.hash_count() && #[trigger] self.position(i, entry) == j
    }

    /// Whether all positions of `entry` are set in `bits`.
    pub open spec fn holds(&self, bits: Seq<bool>, entry: Seq<char>) -> bool {
        forall|i: nat| i < self.hash_count() ==> #[trigger] bits[self.position(i, entry) as int]
    }

    /// Whether the positions of `entry` are pairwise distinct and all clear in `bits`.
    pub open spec fn novel(&self, bits: Seq<bool>, entry: Seq<char>) -> bool {
        &&& forall|i: nat| i < self.hash_count() ==> !#[trigger] bits[self.position(i, entry) as int]
        &&& forall|i: nat, j: nat|
            i < j < self.hash_count() ==> #[trigger] self.position(i, entry) != #[trigger] self.position(
                j,
                entry,
            )
    }

    /// `bits` with every position of `entry` set.
    pub open spec fn after_insert(&self, bits: Seq<bool>, entry: Seq<char>) -> Seq<bool> {
        Seq::new(bits.len(), |j: int| bits[j] || self.hits(entry, j))
    }

    /// `bits` after inserting `entries` in order.
    pub open spec fn after_inserts(&self, bits: Seq<bool>, entries: Seq<Seq<char>>) -> Seq<bool>
        decreases entries.len(),
    {
        if entries.len() == 0 {
            bits
        } else {
            self.after_insert(self.after_inserts(bits, entries.drop_last()), entries.last())
        }
    }

    /// How much the distinct-insert counter grows over inserting `entries` in order.
    pub open spec fn count_gain(&self, bits: Seq<bool>, entries: Seq<Seq<char>>) -> nat
        decreases entries.len(),
    {
        if entries.len() == 0 {
            0
        } else {
            let before = self.after_inserts(bits, entries.drop_last());
            self.count_gain(bits, entries.drop_last()) + if self.novel(before, entries.last()) {
                1nat
            } else {
                0nat
            }
        }
    }

    /// Builds a filter of `total_bits` bits for `max_size` entries at the
    /// tolerance whose float has bit pattern `max_tolerance`, with `k =
    /// ceil(-log2(p))` positions per entry from `strategy`.
    /// Capacity, tolerance and bit length are checked in that order; zero bits
    /// is then refused by the hash manager.
    pub fn try_from(max_size: usize, max_tolerance: u32, total_bits: usize, strategy: H) -> (r:
        Result<BloomFilter<H>, BloomFilterError>)
        ensures
            r is Ok <==> configuration_outcome(max_tolerance, max_size, total_bits) is None
                && total_bits > 0,
            r matches Err(BloomFilterError::Configuration(ConfigError::Dependency(_)))
                ==> configuration_outcome(max_tolerance, max_size, total_bits) matches Some(
                ConfigError::Dependency(_),
            ),
            r matches Err(BloomFilterError::Configuration(ConfigError::Validation(_)))
                ==> configuration_outcome(max_tolerance, max_size, total_bits) matches Some(
                ConfigError::Validation(_),
            ),
            r matches Err(BloomFilterError::Hashing(_)) ==> configuration_outcome(
                max_tolerance,
                max_size,
                total_bits,
            ) is None && total_bits == 0,
            !(r is Err && r->Err_0 is Storage),
            r matches Ok(f) ==> {
                &&& f.wf()
                &&& f.bits() == Seq::new(total_bits as nat, |j: int| false)
                &&& f.bytes() == Seq::new(bytes_for_bits(total_bits as nat), |i: int| 0u8)
                &&& f.hash_count() >= 1
                &&& f.unique_entries() == 0
                &&& f.total_bits() == total_bits
                &&& f.strategy() == strategy
                &&& is_hash_count_for(max_tolerance, f.hash_count())
            },
    {
        let configuration = match Configuration::try_from(max_tolerance, max_size, total_bits) {
            Ok(c) => c,
            Err(e) => return Err(BloomFilterError::Configuration(e)),
        };
        let manager = match HashManager::try_from(configuration.get_tolerance(), configuration.get_total_bits(), strategy) {
            Ok(m) => m,
            Err(message) => return Err(BloomFilterError::Hashing(message.to_owned())),
        };
        let storage = match Storage::try_from(configuration.get_total_bits()) {
            Ok(s) => s,
            Err(message) => return Err(BloomFilterError::Storage(message.to_owned())),
        };
        let f = BloomFilter { configuration, manager, storage };
        proof {
            lemma_set_bits_len(f.storage@);
            assert(set_bits(f.storage@) =~= Set::empty());
        }
        Ok(f)
    }

    /// Sets every position of `entry`; counts the entry as new when all of
    /// them were clear and distinct.
    pub fn insert(&mut self, entry: String)
        requires
            old(self).wf(),
        ensures
            final(self).wf(),
            final(self).total_bits() == old(self).total_bits(),
            final(self).hash_count() == old(self).hash_count(),
            final(self).strategy() == old(self).strategy(),
            forall|i: nat, e: Seq<char>| #[trigger] final(self).position(i, e) == old(self).position(i, e),
            final(self).bits() == old(self).after_insert(old(self).bits(), entry@),
            forall|j: int| 0 <= j < old(self).bits().len() && #[trigger] old(self).bits()[j] ==> final(self).bits()[j],
            final(self).unique_entries() == old(self).unique_entries() + if old(self).novel(old(self).bits(), entry@) {
                1nat
            } else {
                0nat
            },
            old(self).holds(old(self).bits(), entry@) ==> final(self).bytes() == old(self).bytes(),
    {
        let positions = self.manager.compute(entry.as_str());
        let ghost old_bits = self.storage@;
        let ghost e = entry@;
        let ghost m = self.manager.total_bits();
        let ghost k = self.manager.hash_count();
        proof {
            assert forall|i: int| 0 <= i < positions@.len() implies #[trigger] positions@[i]
                == old(self).position(i as nat, e) by {
                assert(positions@[i] == self.manager.position(i as nat, e));
            }
        }
        let mut is_new_entry = true;
        let mut idx: usize = 0;
        while idx < positions.len()
            invariant
                self.storage.wf(),
                self.manager == old(self).manager,
                self.configuration == old(self).configuration,
                positions@.len() == k,
                k == old(self).hash_count(),
                m == old(self).total_bits(),
                forall|i: int| 0 <= i < positions@.len() ==> #[trigger] positions@[i] == old(self).position(i as nat, e),
                forall|i: int| 0 <= i < positions@.len() ==> #[trigger] positions@[i] < m,
                old_bits == old(self).storage@,
                old_bits.len() == m,
                self.storage@.len() == m,
                e == entry@,
                idx <= positions@.len(),
                forall|j: int| 0 <= j < m ==> #[trigger] self.storage@[j] == (old_bits[j]
                    || exists|i: nat| i < idx && #[trigger] old(self).position(i, e) == j),
                is_new_entry == (
                    (forall|i: nat| i < idx ==> !#[trigger] old_bits[old(self).position(i, e) as int])
                    && (forall|i: nat, j: nat| i < j < idx ==> #[trigger] old(self).position(i, e) != #[trigger] old(self).position(j, e))),
                old(self).holds(old_bits, e) ==> self.storage.bytes() == old(self).storage.bytes(),
            decreases positions@.len() - idx,
        {
            let p = positions[idx];
            let ghost before = self.storage@;
            let written = self.storage.write_bit_at(p);
            proof {
                let pi = idx as nat;
                assert(p == old(self).position(pi, e));
                assert forall|j: int| 0 <= j < m implies #[trigger] self.storage@[j] == (old_bits[j]
                    || exists|i: nat| i < idx + 1 && #[trigger] old(self).position(i, e) == j) by {
                    if j == p {
                        assert(old(self).position(pi, e) == j);
                    } else {
                        if exists|i: nat| i < idx + 1 && #[trigger] old(self).position(i, e) == j {
                            let i = choose|i: nat| i < idx + 1 && #[trigger] old(self).position(i, e) == j;
                            assert(i < idx);
                        }
                    }
                }
                if old(self).holds(old_bits, e) {
                    assert(old_bits[old(self).position(pi, e) as int]);
                }
                if written {
                    assert forall|i: nat| i < idx implies #[trigger] old(self).position(i, e) != p by {
                        assert(positions@[i as int] == old(self).position(i, e));
                        assert(before[old(self).position(i, e) as int]);
                    }
                } else {
                    if !old_bits[p as int] {
                        let i = choose|i: nat| i < idx && #[trigger] old(self).position(i, e) == p;
                        assert(old(self).position(i, e) == old(self).position(pi, e));
                    }
                }
            }
            is_new_entry = is_new_entry && written;
            idx = idx + 1;
        }
        proof {
            let new_bits = self.storage@;
            assert forall|j: int| 0 <= j < m implies #[trigger] new_bits[j] == old(self).after_insert(old_bits, e)[j] by {
                if old(self).hits(e, j) {
                    let i = choose|i: nat| i < old(self).hash_count() && #[trigger] old(self).position(i, e) == j;
                    assert(i < idx);
                }
            }
            assert(new_bits =~= old(self).after_insert(old_bits, e));
            lemma_set_bits_len(old_bits);
            lemma_set_bits_len(new_bits);
            assert(set_bits(old_bits).subset_of(set_bits(new_bits)));
            lemma_len_subset(set_bits(old_bits), set_bits(new_bits));
            if is_new_entry {
                let p0 = old(self).position(0, e) as int;
                assert(positions@[0] == p0);
                assert(!old_bits[p0]);
                assert(new_bits[p0]);
                assert(set_bits(old_bits).insert(p0).subset_of(set_bits(new_bits)));
                lemma_len_subset(set_bits(old_bits).insert(p0), set_bits(new_bits));
            }
            assert(old(self).novel(old_bits, e) == is_new_entry);
        }
        if is_new_entry {
            self.configuration.increase_unique_entry_count();
        }
    }

    /// Whether every position of `entry` is set.
    pub fn contains(&self, entry: &str) -> (r: bool)
        requires
            self.wf(),
        ensures
            r == self.holds(self.bits(), entry@),
    {
        let positions = self.manager.compute(entry);
        let mut idx: usize = 0;
        while idx < positions.len()
            invariant
                self.wf(),
                positions@.len() == self.hash_count(),
                forall|i: int| 0 <= i < positions@.len() ==> #[trigger] positions@[i] == self.manager.position(i as nat, entry@),
                forall|i: int| 0 <= i < positions@.len() ==> #[trigger] positions@[i] < self.manager.total_bits(),
                idx <= positions@.len(),
                forall|i: nat| i < idx ==> #[trigger] self.bits()[self.position(i, entry@) as int],
            decreases positions@.len() - idx,
        {
            let bit = self.storage.read_bit_at(positions[idx]);
            assert(positions@[idx as int] == self.position(idx as nat, entry@));
            if bit == 0 {
                return false;
            }
            idx = idx + 1;
        }
        true
    }

    /// The count of inserts that found all of their positions clear.
    pub fn get_unique_entry_count(&self) -> (r: usize)
        ensures
            r == self.unique_entries(),
    {
        self.configuration.get_unique_entry_count()
    }

    /// `m`, the number of bits.
    pub fn get_total_bits(&self) -> (r: usize)
        requires
            self.wf(),
        ensures
            r == self.total_bits(),
    {
        self.configuration.get_total_bits()
    }

    /// `k`, the number of positions per entry.
    pub fn get_hash_count(&self) -> (r: usize)
        ensures
            r == self.hash_count(),
    {
        self.manager.get_hash_count()
    }

    /// Whether bit `idx` of the array is set.
    pub fn is_bit_set(&self, idx: usize) -> (r: bool)
        requires
            self.wf(),
        ensures
            r == (idx < self.total_bits() && self.bits()[idx as int]),
    {
        if idx >= self.configuration.get_total_bits() {
            return false;
        }
        self.storage.read_bit_at(idx) != 0
    }

    /// Every position lies below `m`.
    pub proof fn lemma_position_in_range(&self, i: nat, entry: Seq<char>)
        requires
            self.wf(),
        ensures
            self.position(i, entry) < self.total_bits(),
    {
        self.manager.lemma_position_bound(i, entry);
    }

    /// What a well-formed filter looks like: `m > 0` bits, `k >= 1`
    /// positions, bit `j` stored as bit `j % 8` of byte `j / 8` in
    /// `ceil(m / 8)` bytes.
    pub proof fn lemma_layout(&self)
        requires
            self.wf(),
        ensures
            self.total_bits() > 0,
            self.hash_count() >= 1,
            self.bits().len() == self.total_bits(),
            self.bytes().len() == bytes_for_bits(self.total_bits()),
            forall|j: int| 0 <= j < self.bits().len() ==> #[trigger] self.bits()[j] == bit_of(self.bytes()[j / 8], (j % 8) as u8),
    {
        self.storage.lemma_layout();
    }

    /// Two filters with the same bits hold the same bytes.
    pub proof fn lemma_bytes_follow_bits(a: &Self, b: &Self)
        requires
            a.wf(),
            b.wf(),
            a.bits() == b.bits(),
        ensures
            a.bytes() == b.bytes(),
    {
        Storage::lemma_bytes_follow_bits(&a.storage, &b.storage);
    }

    proof fn lemma_holds_after_insert(&self, bits: Seq<bool>, entry: Seq<char>)
        requires
            self.wf(),
            bits.len() == self.total_bits(),
        ensures
            self.holds(self.after_insert(bits, entry), entry),
    {
        assert forall|i: nat| i < self.hash_count() implies #[trigger] self.after_insert(bits, entry)[self.position(i, entry) as int] by {
            self.lemma_position_in_range(i, entry);
            assert(self.hits(entry, self.position(i, entry) as int));
        }
    }

    proof fn lemma_holds_grows(&self, small: Seq<bool>, large: Seq<bool>, entry: Seq<char>)
        requires
            self.wf(),
            small.len() == self.total_bits(),
            large.len() == small.len(),
            forall|j: int| 0 <= j < small.len() && #[trigger] small[j] ==> large[j],
            self.holds(small, entry),
        ensures
            self.holds(large, entry),
    {
        assert forall|i: nat| i < self.hash_count() implies #[trigger] large[self.position(i, entry) as int] by {
            self.lemma_position_in_range(i, entry);
            assert(small[self.position(i, entry) as int]);
        }
    }

    /// A set bit stays set however many entries are inserted after it.
    pub proof fn lemma_bits_stay_set(&self, bits: Seq<bool>, entries: Seq<Seq<char>>)
        requires
            self.wf(),
            bits.len() == self.total_bits(),
        ensures
            self.after_inserts(bits, entries).len() == bits.len(),
            forall|j: int| 0 <= j < bits.len() && #[trigger] bits[j] ==> self.after_inserts(bits, entries)[j],
        decreases entries.len(),
    {
        if entries.len() > 0 {
            self.lemma_bits_stay_set(bits, entries.drop_last());
        }
    }

    /// No false negatives: after a run of inserts, every entry inserted in it
    /// is reported present.
    pub proof fn lemma_no_false_negatives(&self, bits: Seq<bool>, entries: Seq<Seq<char>>)
        requires
            self.wf(),
            bits.len() == self.total_bits(),
        ensures
            forall|n: int| 0 <= n < entries.len() ==> self.holds(self.after_inserts(bits, entries), #[trigger] entries[n]),
        decreases entries.len(),
    {
        if entries.len() > 0 {
            let prefix = entries.drop_last();
            let before = self.after_inserts(bits, prefix);
            self.lemma_no_false_negatives(bits, prefix);
            self.lemma_bits_stay_set(bits, prefix);
            self.lemma_holds_after_insert(before, entries.last());
            assert forall|n: int| 0 <= n < entries.len() implies self.holds(self.after_inserts(bits, entries), #[trigger] entries[n]) by {
                if n < entries.len() - 1 {
                    assert(entries[n] == prefix[n]);
                    self.lemma_holds_grows(before, self.after_insert(before, entries.last()), entries[n]);
                }
            }
        }
    }

    /// Inserting an entry a second time changes nothing: its positions are all
    /// set, so it is not new, and the bits stay as they are.
    pub proof fn lemma_insert_idempotent(&self, bits: Seq<bool>, entry: Seq<char>)
        requires
            self.wf(),
            bits.len() == self.total_bits(),
        ensures
            self.holds(self.after_insert(bits, entry), entry),
            !self.novel(self.after_insert(bits, entry), entry),
            self.after_insert(self.after_insert(bits, entry), entry) == self.after_insert(bits, entry),
    {
        let once = self.after_insert(bits, entry);
        self.lemma_holds_after_insert(bits, entry);
        assert(once[self.position(0, entry) as int]);
        assert(self.after_insert(once, entry) =~= once);
    }

    /// The distinct-insert counter grows by at most one per insert.
    pub proof fn lemma_count_bounded(&self, bits: Seq<bool>, entries: Seq<Seq<char>>)
        ensures
            self.count_gain(bits, entries) <= entries.len(),
        decreases entries.len(),
    {
        if entries.len() > 0 {
            self.lemma_count_bounded(bits, entries.drop_last());
        }
    }
}

} // verus!
