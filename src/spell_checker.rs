use vstd::prelude::*;
use crate::filter::BloomFilter;
use crate::hashing::Hashing;
use crate::storage_service::{StorageService, StorageServiceError};

verus! {

/// Why a spell check could not be made.
#[derive(Debug)]
pub enum SpellCheckerError {
    Storage(StorageServiceError),
    Initialization(String),
}

/// What `str::trim` returns: the text without leading and trailing whitespace.
pub uninterp spec fn trimmed_of(s: Seq<char>) -> Seq<char>;

/// Relies on str::trim: drops leading and trailing whitespace, a function of
/// the characters alone.
#[verifier::external_body]
fn trim_text(s: &str) -> (r: String)
    ensures
        r@ == trimmed_of(s@),
{
    s.trim().to_string()
}

/// Each entry with its leading and trailing whitespace dropped, in order.
pub fn trim_entries(entries: &Vec<String>) -> (r: Vec<String>)
    ensures
        r@.len() == entries@.len(),
        forall|i: int| 0 <= i < r@.len() ==> (#[trigger] r@[i])@ == trimmed_of(entries@[i]@),
{
    let mut trimmed: Vec<String> = Vec::new();
    let mut i: usize = 0;
    while i < entries.len()
        invariant
            i <= entries@.len(),
            trimmed@.len() == i,
            forall|j: int| 0 <= j < i ==> (#[trigger] trimmed@[j])@ == trimmed_of(entries@[j]@),
        decreases entries@.len() - i,
    {
        trimmed.push(trim_text(entries[i].as_str()));
        i = i + 1;
    }
    trimmed
}

/// Inserts every word into the filter, in order.
pub fn load_words<H: Hashing>(buffer: &mut BloomFilter<H>, words: &Vec<String>)
    requires
        old(buffer).wf(),
    ensures
        final(buffer).wf(),
        final(buffer).total_bits() == old(buffer).total_bits(),
        final(buffer).hash_count() == old(buffer).hash_count(),
        final(buffer).strategy() == old(buffer).strategy(),
        final(buffer).bits() == old(buffer).after_inserts(
            old(buffer).bits(),
            words@.map_values(|w: String| w@),
        ),
        forall|j: int|
            0 <= j < old(buffer).bits().len() && #[trigger] old(buffer).bits()[j]
                ==> final(buffer).bits()[j],
{
    let ghost start = *buffer;
    proof {
        start.lemma_layout();
        start.lemma_bits_stay_set(start.bits(), words@.map_values(|w: String| w@));
        assert(words@.subrange(0, 0).map_values(|w: String| w@) =~= Seq::<Seq<char>>::empty());
    }
    let mut i: usize = 0;
    while i < words.len()
        invariant
            buffer.wf(),
            start.wf(),
            start == *old(buffer),
            i <= words@.len(),
            buffer.total_bits() == start.total_bits(),
            buffer.hash_count() == start.hash_count(),
            buffer.strategy() == start.strategy(),
            buffer.bits().len() == start.bits().len(),
            buffer.bits() == start.after_inserts(
                start.bits(),
                words@.subrange(0, i as int).map_values(|w: String| w@),
            ),
        decreases words@.len() - i,
    {
        let word = words[i].clone();
        let ghost before = *buffer;
        buffer.insert(word);
        proof {
            let w = words@[i as int]@;
            assert(before.after_insert(before.bits(), w) =~= start.after_insert(before.bits(), w)) by {
                assert forall|j: int| 0 <= j < before.bits().len() implies before.hits(w, j) == start.hits(w, j) by {
                    if before.hits(w, j) {
                        let k = choose|k: nat| k < before.hash_count() && #[trigger] before.position(k, w) == j;
                        assert(start.position(k, w) == j);
                    }
                    if start.hits(w, j) {
                        let k = choose|k: nat| k < start.hash_count() && #[trigger] start.position(k, w) == j;
                        assert(before.position(k, w) == j);
                    }
                }
            }
            let next = words@.subrange(0, i + 1).map_values(|w: String| w@);
            assert(next.drop_last() =~= words@.subrange(0, i as int).map_values(|w: String| w@));
            assert(next.last() == w);
        }
        i = i + 1;
    }
    assert(words@.subrange(0, words@.len() as int) =~= words@);
}

/// Reports words that are probably not in a dictionary: the filter rules out
/// most of them, and the store confirms the rest.
pub struct SpellChecker<H, D> {
    buffer: BloomFilter<H>,
    database: D,
}

/// Collects a filter and a store, then loads every stored word into the filter.
pub struct SpellCheckerBuilder<H, D> {
    buffer: Option<BloomFilter<H>>,
    database: Option<D>,
}

impl<H: Hashing, D: StorageService> Default for SpellCheckerBuilder<H, D> {
    fn default() -> (r: SpellCheckerBuilder<H, D>)
        ensures
            r.buffer() is None,
            r.database() is None,
    {
        SpellCheckerBuilder { buffer: None, database: None }
    }
}

impl<H: Hashing, D: StorageService> SpellCheckerBuilder<H, D> {
    pub closed spec fn buffer(&self) -> Option<BloomFilter<H>> {
        self.buffer
    }

    pub closed spec fn database(&self) -> Option<D> {
        self.database
    }

    pub open spec fn wf(&self) -> bool {
        self.buffer() matches Some(b) ==> b.wf()
    }

    /// Fails when the filter or the store is missing (the filter is checked
    /// first) or when the store cannot list its words; otherwise every word is
    /// inserted into the filter.
    pub fn build(self) -> (r: Result<SpellChecker<H, D>, SpellCheckerError>)
        requires
            self.wf(),
        ensures
            self.buffer() is None ==> r matches Err(SpellCheckerError::Initialization(_)),
            self.buffer() is Some && self.database() is None ==> r matches Err(
                SpellCheckerError::Initialization(_),
            ),
            r matches Err(SpellCheckerError::Initialization(_)) ==> self.buffer() is None
                || self.database() is None,
            r matches Err(SpellCheckerError::Storage(_)) ==> self.buffer() is Some
                && self.database() is Some,
            r is Ok ==> self.buffer() is Some && self.database() is Some,
            r matches Ok(c) ==> {
                let b = self.buffer()->Some_0;
                &&& c.wf()
                &&& c.database() == self.database()->Some_0
                &&& c.buffer().total_bits() == b.total_bits()
                &&& c.buffer().hash_count() == b.hash_count()
                &&& c.buffer().strategy() == b.strategy()
                &&& forall|j: int| 0 <= j < b.bits().len() && #[trigger] b.bits()[j] ==> c.buffer().bits()[j]
                &&& exists|words: Seq<Seq<char>>| #[trigger] b.after_inserts(b.bits(), words) == c.buffer().bits()
            },
    {
        let mut buffer = match self.buffer {
            Some(b) => b,
            None => return Err(SpellCheckerError::Initialization("Buffer has not been initialized".to_owned())),
        };
        let database = match self.database {
            Some(d) => d,
            None => return Err(SpellCheckerError::Initialization("Database has not been initialized".to_owned())),
        };
        let words = match database.retrieve_all() {
            Ok(w) => w,
            Err(e) => return Err(SpellCheckerError::Storage(e)),
        };
        load_words(&mut buffer, &words);
        Ok(SpellChecker { buffer, database })
    }

    pub fn with_buffer(self, buffer: BloomFilter<H>) -> (r: SpellCheckerBuilder<H, D>)
        ensures
            r.buffer() == Some(buffer),
            r.database() == self.database(),
    {
        SpellCheckerBuilder { buffer: Some(buffer), database: self.database }
    }

    pub fn with_database(self, database: D) -> (r: SpellCheckerBuilder<H, D>)
        ensures
            r.buffer() == self.buffer(),
            r.database() == Some(database),
    {
        SpellCheckerBuilder { buffer: self.buffer, database: Some(database) }
    }
}

impl<H: Hashing, D: StorageService> SpellChecker<H, D> {
    pub closed spec fn buffer(&self) -> BloomFilter<H> {
        self.buffer
    }

    pub closed spec fn database(&self) -> D {
        self.database
    }

    pub closed spec fn wf(&self) -> bool {
        self.buffer.wf()
    }

    pub fn builder() -> (r: SpellCheckerBuilder<H, D>)
        ensures
            r.buffer() is None,
            r.database() is None,
    {
        SpellCheckerBuilder::default()
    }

    /// Whether `entry` is a known word: `Ok(false)` straight away when the
    /// filter rules it out, else the store's answer.
    pub fn check_spelling_of(&self, entry: &str) -> (r: Result<bool, SpellCheckerError>)
        requires
            self.wf(),
        ensures
            !self.buffer().holds(self.buffer().bits(), entry@) ==> r matches Ok(false),
            (r matches Ok(true) || r is Err) ==> self.buffer().holds(self.buffer().bits(), entry@),
            r matches Err(e) ==> e is Storage,
    {
        if self.buffer.contains(entry) {
            return match self.database.contains(entry) {
                Ok(found) => Ok(found),
                Err(e) => Err(SpellCheckerError::Storage(e)),
            };
        }
        Ok(false)
    }

    /// Saves the entries, each trimmed of surrounding whitespace, to the store.
    pub fn update_knowledge(&self, entries: Vec<String>) -> (r: Result<(), SpellCheckerError>)
        ensures
            r matches Err(e) ==> e is Storage,
    {
        let trimmed = trim_entries(&entries);
        match self.database.save_bulk(trimmed) {
            Ok(()) => Ok(()),
            Err(e) => Err(SpellCheckerError::Storage(e)),
        }
    }
}

} // verus!
