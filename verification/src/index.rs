//! The set of files a server shares, each known by its name.
use vstd::prelude::*;

verus! {

/// The names of the shared files, none twice, in the order they were added.
#[derive(Clone)]
pub struct FileIndex {
    names: Vec<String>,
}

impl View for FileIndex {
    type V = Seq<Seq<char>>;

    closed spec fn view(&self) -> Seq<Seq<char>> {
        Seq::new(self.names@.len(), |i: int| self.names@[i]@)
    }
}

impl FileIndex {
    /// No name occurs twice.
    pub open spec fn wf(&self) -> bool {
        self@.no_duplicates()
    }

    /// An index that shares nothing.
    pub fn new() -> (idx: FileIndex)
        ensures
            idx.wf(),
            idx@ == Seq::<Seq<char>>::empty(),
    {
        let idx = FileIndex { names: Vec::new() };
        assert(idx@ =~= Seq::<Seq<char>>::empty());
        idx
    }

    /// The number of shared files.
    pub fn len(&self) -> (n: usize)
        ensures
            n == self@.len(),
    {
        self.names.len()
    }

    /// The name of the `i`-th shared file.
    pub fn name(&self, i: usize) -> (name: String)
        requires
            i < self@.len(),
        ensures
            name@ == self@[i as int],
    {
        self.names[i].clone()
    }

    /// Where `name` stands in the index, if it is shared.
    pub fn position(&self, name: &String) -> (r: Option<usize>)
        requires
            self.wf(),
        ensures
            match r {
                Some(i) => i < self@.len() && self@[i as int] == name@ && i == self@.index_of(
                    name@,
                ),
                None => !self@.contains(name@),
            },
    {
        let mut i: usize = 0;
        while i < self.names.len()
            invariant
                i <= self.names@.len(),
                self.wf(),
                forall|j: int| 0 <= j < i ==> self@[j] != name@,
            decreases self.names.len() - i,
        {
            if self.names[i] == *name {
                assert(self@[i as int] == name@);
                assert(self@.index_of(name@) == i) by {
                    assert(exists|j: int| 0 <= j < self@.len() && self@[j] == name@) by {
                        assert(0 <= i < self@.len() && self@[i as int] == name@);
                    }
                    let k = self@.index_of(name@);
                    assert(0 <= k < self@.len() && self@[k] == name@);
                }
                return Some(i);
            }
            i = i + 1;
        }
        None
    }

    /// Whether `name` is shared.
    pub fn contains(&self, name: &String) -> (b: bool)
        requires
            self.wf(),
        ensures
            b == self@.contains(name@),
    {
        self.position(name).is_some()
    }

    /// Shares `name`, unless it is shared already; says whether it was added.
    pub fn insert(&mut self, name: String) -> (added: bool)
        requires
            old(self).wf(),
        ensures
            final(self).wf(),
            added == !old(self)@.contains(name@),
            added ==> final(self)@ == old(self)@.push(name@),
            !added ==> final(self)@ == old(self)@,
    {
        if self.contains(&name) {
            false
        } else {
            let ghost before = self@;
            let ghost n = name@;
            self.names.push(name);
            assert(self@ =~= before.push(n));
            true
        }
    }
}

/// The name under which a directory listing shows `path`: what follows the
/// directory argument of `dir_len` bytes and the separator after it.
pub open spec fn entry_name_spec(path: Seq<u8>, dir_len: int) -> Seq<u8> {
    path.subrange(dir_len + 1, path.len() as int)
}

/// The name of the directory entry `path`, listed under a directory given as
/// an argument of `dir_len` bytes.
pub fn entry_name(path: &[u8], dir_len: usize) -> (name: Vec<u8>)
    requires
        dir_len < path@.len(),
    ensures
        name@ == entry_name_spec(path@, dir_len as int),
        name@.len() == path@.len() - dir_len - 1,
        path@.subrange(0, dir_len + 1) + name@ == path@,
{
    let total: usize = path.len();
    let mut name: Vec<u8> = Vec::new();
    let mut i: usize = dir_len + 1;
    while i < path.len()
        invariant
            dir_len + 1 <= i <= path@.len(),
            name@ == path@.subrange(dir_len + 1, i as int),
        decreases path.len() - i,
    {
        name.push(path[i]);
        i = i + 1;
        assert(name@ =~= path@.subrange(dir_len + 1, i as int));
    }
    name
}

/// The name of a directory entry is its path with the directory argument and
/// exactly one separator byte, whatever that byte is, taken off the front:
/// those `dir_len + 1` bytes followed by the name give back the path.
pub proof fn law_entry_name(path: Seq<u8>, dir_len: int)
    requires
        0 <= dir_len < path.len(),
    ensures
        entry_name_spec(path, dir_len).len() == path.len() - dir_len - 1,
        path.subrange(0, dir_len + 1) + entry_name_spec(path, dir_len) == path,
        forall|i: int|
            0 <= i < path.len() - dir_len - 1 ==> #[trigger] entry_name_spec(path, dir_len)[i]
                == path[dir_len + 1 + i],
{
    assert(path.subrange(0, dir_len + 1) + entry_name_spec(path, dir_len) =~= path);
}

} // verus!
