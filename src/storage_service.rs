use vstd::prelude::*;
use vstd::string::StrSliceExecFns;

verus! {

/// Why a backing store could not answer.
#[derive(Debug)]
pub enum StorageServiceError {
    NotFound(String),
    Unsupported(String),
    PermissionDenied(String),
    NetworkIssue(String),
}

/// An authoritative store of words, consulted when the filter admits a candidate.
pub trait StorageService {
    fn contains(&self, entry: &str) -> Result<bool, StorageServiceError>;

    fn save(&self, entry: String) -> Result<(), StorageServiceError>;

    fn save_bulk(&self, entries: Vec<String>) -> Result<(), StorageServiceError>;

    fn retrieve_all(&self) -> Result<Vec<String>, StorageServiceError>;
}

/// Index of the last occurrence of `c` in `s`, or -1.
pub open spec fn last_index_of(s: Seq<char>, c: char) -> int
    decreases s.len(),
{
    if s.len() == 0 {
        -1
    } else if s.last() == c {
        s.len() - 1
    } else {
        last_index_of(s.drop_last(), c)
    }
}

/// The last component of a path: what follows its last `/`.
pub open spec fn file_name_of(path: Seq<char>) -> Seq<char> {
    path.subrange(last_index_of(path, '/') + 1, path.len() as int)
}

/// The extension of a file name: what follows its last `.`, unless there is
/// none or the name starts with it.
pub open spec fn extension_of(name: Seq<char>) -> Option<Seq<char>> {
    let dot = last_index_of(name, '.');
    if dot <= 0 {
        None
    } else {
        Some(name.subrange(dot + 1, name.len() as int))
    }
}

proof fn lemma_last_index_bound(s: Seq<char>, c: char)
    ensures
        -1 <= last_index_of(s, c) < s.len(),
        last_index_of(s, c) >= 0 ==> s[last_index_of(s, c)] == c,
    decreases s.len(),
{
    if s.len() > 0 && s.last() != c {
        lemma_last_index_bound(s.drop_last(), c);
    }
}

/// Position of the last `c` in `s`, if any.
pub fn find_last(s: &str, c: char) -> (r: Option<usize>)
    ensures
        r == (if last_index_of(s@, c) < 0 {
            None::<usize>
        } else {
            Some(last_index_of(s@, c) as usize)
        }),
{
    let mut i = s.unicode_len();
    assert(s@.subrange(0, i as int) =~= s@);
    while i > 0
        invariant
            i <= s@.len(),
            last_index_of(s@, c) == last_index_of(s@.subrange(0, i as int), c),
        decreases i,
    {
        let ghost prefix = s@.subrange(0, i as int);
        assert(prefix.drop_last() =~= s@.subrange(0, i - 1));
        if s.get_char(i - 1) == c {
            return Some(i - 1);
        }
        i = i - 1;
    }
    assert(s@.subrange(0, 0).len() == 0);
    None
}

/// The extension of the file that `path` names, if it has one.
pub fn file_extension(path: &str) -> (r: Option<&str>)
    ensures
        r matches Some(e) ==> extension_of(file_name_of(path@)) == Some(e@),
        r is None <==> extension_of(file_name_of(path@)) is None,
{
    let len = path.unicode_len();
    proof {
        lemma_last_index_bound(path@, '/');
    }
    let start = match find_last(path, '/') {
        Some(slash) => slash + 1,
        None => 0,
    };
    let name = path.substring_char(start, len);
    assert(name@ == file_name_of(path@));
    proof {
        lemma_last_index_bound(name@, '.');
    }
    match find_last(name, '.') {
        Some(dot) => {
            if dot == 0 {
                None
            } else {
                Some(name.substring_char(dot + 1, name.unicode_len()))
            }
        },
        None => None,
    }
}

/// A word store kept in a text file, one word per line.
pub struct LocalStorage {
    path: String,
}

/// Whether `s` is the text `txt`.
pub open spec fn is_txt(s: Seq<char>) -> bool {
    s == seq!['t', 'x', 't']
}

impl LocalStorage {
    pub closed spec fn path(&self) -> Seq<char> {
        self.path@
    }

    /// Accepts a path that `exists` and `is_file` report as an existing file,
    /// whose extension is `txt`.
    pub fn try_from(storage_loc: String, exists: bool, is_file: bool) -> (r: Result<LocalStorage, StorageServiceError>)
        ensures
            !exists ==> r matches Err(StorageServiceError::NotFound(_)),
            exists && !is_file ==> r matches Err(StorageServiceError::Unsupported(_)),
            exists && is_file ==> match extension_of(file_name_of(storage_loc@)) {
                None => r matches Err(StorageServiceError::NotFound(_)),
                Some(e) => if is_txt(e) {
                    r matches Ok(s) && s.path() == storage_loc@
                } else {
                    r matches Err(StorageServiceError::Unsupported(_))
                },
            },
    {
        if !exists {
            return Err(StorageServiceError::NotFound("Incorrect path.".to_owned()));
        }
        if !is_file {
            return Err(StorageServiceError::Unsupported("This path does not lead to a file".to_owned()));
        }
        match file_extension(storage_loc.as_str()) {
            Some(ext) => {
                let n = ext.unicode_len();
                let txt = n == 3 && ext.get_char(0) == 't' && ext.get_char(1) == 'x' && ext.get_char(2) == 't';
                proof {
                    if txt {
                        assert(ext@ =~= seq!['t', 'x', 't']);
                    } else if n == 3 {
                        assert(ext@ != seq!['t', 'x', 't'] ) by {
                            if ext@ == seq!['t', 'x', 't'] {
                                assert(ext@[0] == 't' && ext@[1] == 'x' && ext@[2] == 't');
                            }
                        }
                    }
                }
                if !txt {
                    return Err(StorageServiceError::Unsupported("This storage only supports text files".to_owned()));
                }
            },
            None => {
                return Err(StorageServiceError::NotFound("No file extension found".to_owned()));
            },
        }
        Ok(LocalStorage { path: storage_loc })
    }

    pub fn get_path(&self) -> (r: &str)
        ensures
            r@ == self.path(),
    {
        self.path.as_str()
    }
}

} // verus!
