//! Access to the wheel's sysfs attribute directory, and an in-memory stand
//! in for it.

use vstd::prelude::*;
use vstd::string::*;
use crate::setting::IoError;
use crate::text::str_eq;

verus! {

/// What reading `attr` gives in a directory whose files are `files`: its
/// text, its failure, or "no such file".
pub open spec fn read_result(files: Map<Seq<char>, Result<Seq<char>, IoError>>, attr: Seq<char>) -> Result<Seq<char>, IoError> {
    if files.contains_key(attr) {
        files[attr]
    } else {
        Err(IoError::NotFound)
    }
}

/// One write made through a [`SysfsIo`]: attribute, text, and what the
/// write returned.
pub type WriteRecord = (Seq<char>, Seq<char>, Result<(), IoError>);

/// A directory of attribute files.
///
/// The contracts below hold of a directory that is modelled: `files` is
/// what its attributes read as right now (the text of each readable
/// attribute, or the failure reading it gives), `writes` is every write
/// made through the handle, in order, with its result, and a write to an
/// attribute whose reading does not fail stores the text, so that it
/// reads back as written. [`FakeSysfs`] is modelled. An implementation
/// outside the verified crate (the real sysfs directory, where a driver
/// reads back its own formatting of what it stored) leaves `modelled` at
/// its default, false, and then these contracts claim nothing of it.
pub trait SysfsIo {
    /// Whether this directory is modelled by `files` and `writes`.
    closed spec fn modelled() -> bool {
        false
    }

    closed spec fn files(&self) -> Map<Seq<char>, Result<Seq<char>, IoError>> {
        Map::empty()
    }

    closed spec fn writes(&self) -> Seq<WriteRecord> {
        Seq::empty()
    }

    /// Whether the attribute file is there.
    fn has(&self, attr: &str) -> (r: bool)
        ensures
            Self::modelled() ==> r == self.files().contains_key(attr@),
    ;

    /// The attribute's text.
    fn read(&self, attr: &str) -> (r: Result<String, IoError>)
        ensures
            Self::modelled() ==> match read_result(self.files(), attr@) {
                Ok(t) => r is Ok && r->Ok_0@ == t,
                Err(e) => r == Err::<String, IoError>(e),
            },
    ;

    /// Write `value` to the attribute. An attribute that fails to read
    /// fails the write too and is left as it was; any other write stores
    /// the text, creating the attribute if it was missing.
    fn write(&mut self, attr: &str, value: &str) -> (r: Result<(), IoError>)
        ensures
            Self::modelled() ==> final(self).writes() == old(self).writes().push((attr@, value@, r)),
            Self::modelled() ==> match old(self).files().get(attr@) {
                Some(Err(e)) => r == Err::<(), IoError>(e) && final(self).files() == old(self).files(),
                _ => r is Ok && final(self).files() == old(self).files().insert(attr@, Ok(value@)),
            },
    ;
}

/// One attribute of a [`FakeSysfs`]: its name and what reading it gives.
pub type FakeEntry = (String, Result<String, IoError>);

pub open spec fn entry_result(r: Result<String, IoError>) -> Result<Seq<char>, IoError> {
    match r {
        Ok(s) => Ok(s@),
        Err(e) => Err(e),
    }
}

/// The index of the first entry named `attr`.
pub open spec fn first_entry(es: Seq<FakeEntry>, attr: Seq<char>) -> Option<int>
    decreases es.len(),
{
    if es.len() == 0 {
        None
    } else {
        match first_entry(es.drop_last(), attr) {
            Some(i) => Some(i),
            None => if es.last().0@ == attr {
                Some(es.len() - 1)
            } else {
                None
            },
        }
    }
}

proof fn lemma_first_entry_bounds(es: Seq<FakeEntry>, attr: Seq<char>)
    ensures
        first_entry(es, attr) matches Some(i) ==> 0 <= i < es.len() && es[i].0@ == attr,
    decreases es.len(),
{
    if es.len() > 0 {
        lemma_first_entry_bounds(es.drop_last(), attr);
    }
}

/// Replacing the value of an entry (keeping its name) moves no name's
/// first entry.
proof fn lemma_first_entry_update(es: Seq<FakeEntry>, i: int, e: FakeEntry, attr: Seq<char>)
    requires
        0 <= i < es.len(),
        e.0@ == es[i].0@,
    ensures
        first_entry(es.update(i, e), attr) == first_entry(es, attr),
    decreases es.len(),
{
    let es2 = es.update(i, e);
    if i < es.len() - 1 {
        assert(es2.drop_last() =~= es.drop_last().update(i, e));
        lemma_first_entry_update(es.drop_last(), i, e, attr);
    } else {
        assert(es2.drop_last() =~= es.drop_last());
    }
}

/// An in-memory attribute directory: attributes set by name, some set to
/// fail with an `errno`, every write recorded.
pub struct FakeSysfs {
    entries: Vec<FakeEntry>,
    log: Ghost<Seq<WriteRecord>>,
}

impl FakeSysfs {
    pub closed spec fn view_files(&self) -> Map<Seq<char>, Result<Seq<char>, IoError>> {
        Map::new(
            |k: Seq<char>| first_entry(self.entries@, k) is Some,
            |k: Seq<char>| entry_result(self.entries@[first_entry(self.entries@, k)->Some_0].1),
        )
    }

    /// An empty directory.
    pub fn new() -> (r: FakeSysfs)
        ensures
            r.files() == Map::<Seq<char>, Result<Seq<char>, IoError>>::empty(),
            r.writes() == Seq::<WriteRecord>::empty(),
    {
        let r = FakeSysfs { entries: Vec::new(), log: Ghost(Seq::empty()) };
        assert(r.view_files() =~= Map::<Seq<char>, Result<Seq<char>, IoError>>::empty());
        r
    }

    fn find(&self, attr: &str) -> (r: Option<usize>)
        ensures
            r is Some <==> first_entry(self.entries@, attr@) is Some,
            r matches Some(i) ==> first_entry(self.entries@, attr@) == Some(i as int),
            r matches Some(i) ==> i < self.entries@.len() && self.entries@[i as int].0@ == attr@,
    {
        proof {
            lemma_first_entry_bounds(self.entries@, attr@);
        }
        let mut i: usize = 0;
        assert(self.entries@.take(0) =~= Seq::<FakeEntry>::empty());
        while i < self.entries.len()
            invariant
                i <= self.entries.len(),
                first_entry(self.entries@.take(i as int), attr@) is None,
            decreases self.entries.len() - i,
        {
            proof {
                assert(self.entries@.take(i + 1).drop_last() =~= self.entries@.take(i as int));
            }
            if str_eq(self.entries[i].0.as_str(), attr) {
                proof {
                    lemma_first_entry_prefix(self.entries@, attr@, i as int + 1);
                }
                return Some(i);
            }
            i = i + 1;
        }
        assert(self.entries@.take(self.entries.len() as int) =~= self.entries@);
        None
    }

    fn put(&mut self, attr: &str, value: Result<String, IoError>)
        ensures
            final(self).view_files() == old(self).view_files().insert(attr@, entry_result(value)),
            final(self).log == old(self).log,
    {
        let ghost pre = self.entries@;
        match self.find(attr) {
            Some(i) => {
                let name = self.entries[i].0.clone();
                proof {
                    lemma_first_entry_bounds(pre, attr@);
                }
                self.entries.set(i, (name, value));
                proof {
                    assert forall|k: Seq<char>| #[trigger]
                        first_entry(self.entries@, k) == first_entry(pre, k) by {
                        lemma_first_entry_update(pre, i as int, (name, value), k);
                    }
                    assert forall|k: Seq<char>, j: int|
                        #![trigger first_entry(pre, k), self.entries@[j]]
                        first_entry(pre, k) == Some(j) && k != attr@ implies j != i
                            && self.entries@[j] == pre[j] by {
                        lemma_first_entry_bounds(pre, k);
                    }
                }
            },
            None => {
                proof {
                    assert forall|k: Seq<char>, j: int|
                        #![trigger first_entry(pre, k), pre[j]]
                        first_entry(pre, k) == Some(j) implies 0 <= j < pre.len() by {
                        lemma_first_entry_bounds(pre, k);
                    }
                }
                self.entries.push((String::from_str(attr), value));
                proof {
                    assert(self.entries@.drop_last() =~= pre);
                }
            },
        }
        assert(self.view_files() =~= old(self).view_files().insert(attr@, entry_result(value)));
    }

    /// Make `attr` read as `value`.
    pub fn set(&mut self, attr: &str, value: &str)
        ensures
            final(self).files() == old(self).files().insert(attr@, Ok(value@)),
            final(self).writes() == old(self).writes(),
    {
        self.put(attr, Ok(String::from_str(value)));
    }

    /// Make every access to `attr` fail with `errno`.
    pub fn set_errno(&mut self, attr: &str, errno: i32)
        ensures
            final(self).files() == old(self).files().insert(attr@, Err(IoError::Os(errno))),
            final(self).writes() == old(self).writes(),
    {
        self.put(attr, Err(IoError::Os(errno)));
    }
}

proof fn lemma_first_entry_prefix(es: Seq<FakeEntry>, attr: Seq<char>, k: int)
    requires
        0 <= k <= es.len(),
        first_entry(es.take(k), attr) is Some,
    ensures
        first_entry(es, attr) == first_entry(es.take(k), attr),
    decreases es.len() - k,
{
    if k < es.len() {
        assert(es.take(k + 1).drop_last() =~= es.take(k));
        lemma_first_entry_prefix(es, attr, k + 1);
    } else {
        assert(es.take(k) =~= es);
    }
}

impl SysfsIo for FakeSysfs {
    open spec fn modelled() -> bool {
        true
    }

    closed spec fn files(&self) -> Map<Seq<char>, Result<Seq<char>, IoError>> {
        self.view_files()
    }

    closed spec fn writes(&self) -> Seq<WriteRecord> {
        self.log@
    }

    fn has(&self, attr: &str) -> (r: bool) {
        self.find(attr).is_some()
    }

    fn read(&self, attr: &str) -> (r: Result<String, IoError>) {
        let found = self.find(attr);
        proof {
            assert(self.files() == self.view_files());
            lemma_first_entry_bounds(self.entries@, attr@);
            if first_entry(self.entries@, attr@) is Some {
                assert(self.view_files().contains_key(attr@));
                assert(self.view_files()[attr@] == entry_result(
                    self.entries@[first_entry(self.entries@, attr@)->Some_0].1,
                ));
            } else {
                assert(!self.view_files().contains_key(attr@));
            }
        }
        match found {
            Some(i) => match &self.entries[i].1 {
                Ok(s) => {
                    let c = s.clone();
                    assert(first_entry(self.entries@, attr@) is Some);
                    assert(i as int == first_entry(self.entries@, attr@)->Some_0);
                    assert(read_result(self.files(), attr@) == entry_result(self.entries@[i as int].1));
                    assert(c@ == s@);
                    Ok(c)
                },
                Err(e) => Err(*e),
            },
            None => Err(IoError::NotFound),
        }
    }

    fn write(&mut self, attr: &str, value: &str) -> (r: Result<(), IoError>) {
        let found = self.find(attr);
        proof {
            assert(self.files() == self.view_files());
            lemma_first_entry_bounds(self.entries@, attr@);
            if first_entry(self.entries@, attr@) is Some {
                assert(self.view_files().contains_key(attr@));
                assert(self.view_files()[attr@] == entry_result(
                    self.entries@[first_entry(self.entries@, attr@)->Some_0].1,
                ));
            } else {
                assert(!self.view_files().contains_key(attr@));
            }
        }
        let r = match found {
            Some(i) => match &self.entries[i].1 {
                Err(e) => Err(*e),
                Ok(_) => Ok(()),
            },
            None => Ok(()),
        };
        if r.is_ok() {
            self.put(attr, Ok(String::from_str(value)));
        }
        self.log = Ghost(self.log@.push((attr@, value@, r)));
        r
    }
}

} // verus!
