use bloom_spell::filter::BloomFilter;
use bloom_spell::hashing::{DefaultHashingStrategy, Seed};
use bloom_spell::spell_checker::{load_words, trim_entries, SpellChecker, SpellCheckerError};
use bloom_spell::storage_service::{
    file_extension, find_last, LocalStorage, StorageService, StorageServiceError,
};
use bloom_spell::weak_password_detector::{verdict_of, DetectError, PasswordDetector};
use std::cell::RefCell;

struct MemoryStore {
    words: RefCell<Vec<String>>,
    failing: bool,
}

impl MemoryStore {
    fn new(words: &[&str]) -> Self {
        MemoryStore { words: RefCell::new(words.iter().map(|w| w.to_string()).collect()), failing: false }
    }

    fn failing() -> Self {
        MemoryStore { words: RefCell::new(vec![]), failing: true }
    }
}

impl StorageService for MemoryStore {
    fn contains(&self, entry: &str) -> Result<bool, StorageServiceError> {
        if self.failing {
            return Err(StorageServiceError::NetworkIssue(String::from("down")));
        }
        Ok(self.words.borrow().iter().any(|w| w == entry))
    }

    fn save(&self, entry: String) -> Result<(), StorageServiceError> {
        self.words.borrow_mut().push(entry);
        Ok(())
    }

    fn save_bulk(&self, entries: Vec<String>) -> Result<(), StorageServiceError> {
        self.words.borrow_mut().extend(entries);
        Ok(())
    }

    fn retrieve_all(&self) -> Result<Vec<String>, StorageServiceError> {
        if self.failing {
            return Err(StorageServiceError::PermissionDenied(String::from("no")));
        }
        Ok(self.words.borrow().clone())
    }
}

fn filter() -> BloomFilter<DefaultHashingStrategy> {
    BloomFilter::try_from(1_000, 0.01f32.to_bits(), 9_586, DefaultHashingStrategy::from(Seed::default()))
        .unwrap()
}

#[test]
fn spell_checker_loads_the_dictionary() {
    let checker = SpellChecker::builder()
        .with_buffer(filter())
        .with_database(MemoryStore::new(&["hot", "cold", "coding"]))
        .build()
        .unwrap();
    assert!(checker.check_spelling_of("hot").unwrap());
    assert!(checker.check_spelling_of("coding").unwrap());
    assert!(!checker.check_spelling_of("hott").unwrap());
}

#[test]
fn spell_checker_needs_buffer_and_database() {
    let no_buffer = SpellChecker::<DefaultHashingStrategy, MemoryStore>::builder()
        .with_database(MemoryStore::new(&[]))
        .build();
    assert!(matches!(no_buffer, Err(SpellCheckerError::Initialization(_))));
    let no_database = SpellChecker::<DefaultHashingStrategy, MemoryStore>::builder()
        .with_buffer(filter())
        .build();
    assert!(matches!(no_database, Err(SpellCheckerError::Initialization(_))));
    let broken = SpellChecker::builder().with_buffer(filter()).with_database(MemoryStore::failing()).build();
    assert!(matches!(broken, Err(SpellCheckerError::Storage(StorageServiceError::PermissionDenied(_)))));
}

#[test]
fn spell_checker_saves_trimmed_words() {
    let checker = SpellChecker::builder()
        .with_buffer(filter())
        .with_database(MemoryStore::new(&[]))
        .build()
        .unwrap();
    checker.update_knowledge(vec![String::from("  fresh \n"), String::from("word")]).unwrap();
    assert_eq!(
        trim_entries(&vec![String::from("  fresh \n"), String::from("\tx y ")]),
        vec![String::from("fresh"), String::from("x y")]
    );
}

#[test]
fn password_detector_verdicts() {
    let detector = PasswordDetector::builder()
        .with_buffer({
            let mut f = filter();
            f.insert(String::from("123456"));
            f.insert(String::from("qwerty"));
            f
        })
        .with_database(MemoryStore::new(&["123456"]))
        .build()
        .unwrap();
    assert!(matches!(detector.verify("123456"), DetectError::Dismiss));
    assert!(matches!(detector.verify("qwerty"), DetectError::Approve));
    assert!(matches!(detector.verify("correct horse"), DetectError::Approve));
}

#[test]
fn password_detector_needs_storage_first() {
    let none = PasswordDetector::<DefaultHashingStrategy, MemoryStore>::builder().build();
    assert!(matches!(none, Err(DetectError::Initialize(m)) if m.contains("Storage")));
    let no_buffer = PasswordDetector::<DefaultHashingStrategy, MemoryStore>::builder()
        .with_database(MemoryStore::new(&[]))
        .build();
    assert!(matches!(no_buffer, Err(DetectError::Initialize(m)) if m.contains("Buffer")));
}

#[test]
fn verdict_follows_the_store() {
    assert!(matches!(verdict_of(Ok(true)), DetectError::Dismiss));
    assert!(matches!(verdict_of(Ok(false)), DetectError::Approve));
    assert!(matches!(
        verdict_of(Err(StorageServiceError::NotFound(String::from("x")))),
        DetectError::Storage(StorageServiceError::NotFound(_))
    ));
}

#[test]
fn path_extension_rules() {
    assert_eq!(find_last("a/b/c", '/'), Some(3));
    assert_eq!(find_last("abc", '/'), None);
    assert_eq!(file_extension("database.txt"), Some("txt"));
    assert_eq!(file_extension("dir.d/words.tar.gz"), Some("gz"));
    assert_eq!(file_extension("dir.d/words"), None);
    assert_eq!(file_extension(".hidden"), None);
    assert_eq!(file_extension("dir/.txt"), None);
    assert_eq!(file_extension("name."), Some(""));
    assert_eq!(file_extension("ünï.cödé"), Some("cödé"));
}

#[test]
fn local_storage_accepts_text_files_only() {
    let ok = LocalStorage::try_from(String::from("data/database.txt"), true, true).unwrap();
    assert_eq!(ok.get_path(), "data/database.txt");
    assert!(matches!(
        LocalStorage::try_from(String::from("database.txt"), false, false),
        Err(StorageServiceError::NotFound(_))
    ));
    assert!(matches!(
        LocalStorage::try_from(String::from("database.txt"), true, false),
        Err(StorageServiceError::Unsupported(_))
    ));
    assert!(matches!(
        LocalStorage::try_from(String::from("database.csv"), true, true),
        Err(StorageServiceError::Unsupported(_))
    ));
    assert!(matches!(
        LocalStorage::try_from(String::from("database"), true, true),
        Err(StorageServiceError::NotFound(_))
    ));
}

#[test]
fn load_words_inserts_each_word() {
    let mut f = filter();
    let words = vec![String::from("hot"), String::from("cold"), String::from("hot")];
    load_words(&mut f, &words);
    assert!(f.contains("hot"));
    assert!(f.contains("cold"));
    assert!(!f.contains("warm"));
    assert_eq!(f.get_unique_entry_count(), 2);
}
