use vstd::prelude::*;
use vstd::slice::slice_to_vec;

verus! {

/// An in-memory filesystem: a mapping from path to bytes. Paths are listed
/// in the order they were first written.
pub struct MemFS {
    names: Vec<String>,
    contents: Vec<Vec<u8>>,
}

/// The paths `names` hold, as character sequences.
pub open spec fn name_views(names: Seq<String>) -> Seq<Seq<char>> {
    names.map_values(|s: String| s@)
}

/// In a sequence without duplicates, an element's index is its position.
proof fn lemma_index_of_unique<A>(s: Seq<A>, i: int)
    requires
        s.no_duplicates(),
        0 <= i < s.len(),
    ensures
        s.index_of(s[i]) == i,
{
    assert(s.contains(s[i]));
}

impl MemFS {
    /// The stored paths, in listing order.
    pub closed spec fn names(&self) -> Seq<Seq<char>> {
        name_views(self.names@)
    }

    /// The stored files.
    pub closed spec fn files(&self) -> Map<Seq<char>, Seq<u8>> {
        Map::new(
            |p: Seq<char>| self.names().contains(p),
            |p: Seq<char>| self.contents@[self.names().index_of(p)]@,
        )
    }

    pub closed spec fn wf(&self) -> bool {
        &&& self.names@.len() == self.contents@.len()
        &&& self.names().no_duplicates()
    }

    /// An empty filesystem.
    pub fn new() -> (fs: MemFS)
        ensures
            fs.wf(),
            fs.names() == Seq::<Seq<char>>::empty(),
            fs.files() == Map::<Seq<char>, Seq<u8>>::empty(),
    {
        let fs = MemFS { names: Vec::new(), contents: Vec::new() };
        assert(fs.files() =~= Map::<Seq<char>, Seq<u8>>::empty());
        assert(fs.names() =~= Seq::<Seq<char>>::empty());
        fs
    }

    /// The position of `path` among the stored names.
    fn find(&self, path: &String) -> (r: Option<usize>)
        requires
            self.wf(),
        ensures
            r is None <==> !self.names().contains(path@),
            r matches Some(i) ==> i < self.names@.len() && self.names()[i as int] == path@
                && self.names().index_of(path@) == i,
    {
        let mut i: usize = 0;
        while i < self.names.len()
            invariant
                self.wf(),
                i <= self.names@.len(),
                forall|j: int| 0 <= j < i ==> #[trigger] self.names()[j] != path@,
            decreases self.names@.len() - i,
        {
            if self.names[i] == *path {
                proof {
                    lemma_index_of_unique(self.names(), i as int);
                }
                return Some(i);
            }
            assert(self.names()[i as int] == self.names@[i as int]@);
            i += 1;
        }
        None
    }
}

/// Creates the filesystem the kernel starts with: empty.
pub fn init() -> (fs: MemFS)
    ensures
        fs.wf(),
        fs.files() == Map::<Seq<char>, Seq<u8>>::empty(),
{
    MemFS::new()
}

/// Stores `content` at `path`, replacing what was there.
pub fn write_file(fs: &mut MemFS, path: &str, content: &[u8])
    requires
        old(fs).wf(),
    ensures
        final(fs).wf(),
        final(fs).files() == old(fs).files().insert(path@, content@),
        old(fs).names().contains(path@) ==> final(fs).names() == old(fs).names(),
        !old(fs).names().contains(path@) ==> final(fs).names() == old(fs).names().push(path@),
{
    let data = slice_to_vec(content);
    let key = path.to_owned();
    match fs.find(&key) {
        Some(i) => {
            fs.contents.set(i, data);
            proof {
                assert(old(fs).names()[i as int] == path@);
                assert(fs.names() == old(fs).names());
                assert forall|p: Seq<char>| #[trigger] fs.names().contains(p) implies
                    fs.files()[p] == old(fs).files().insert(path@, content@)[p] by {
                    let k = fs.names().index_of(p);
                    if p != path@ {
                        assert(k != i);
                    }
                }
                assert(fs.files() =~= old(fs).files().insert(path@, content@));
            }
        },
        None => {
            fs.names.push(key);
            fs.contents.push(data);
            proof {
                let n = old(fs).names().len() as int;
                assert(fs.names() =~= old(fs).names().push(path@));
                assert forall|p: Seq<char>| #[trigger] fs.names().contains(p) <==>
                    (old(fs).names().contains(p) || p == path@) by {
                    if old(fs).names().contains(p) {
                        let k = old(fs).names().index_of(p);
                        assert(fs.names()[k] == p);
                    }
                    if p == path@ {
                        assert(fs.names()[n] == p);
                    }
                    if fs.names().contains(p) && p != path@ {
                        let k = fs.names().index_of(p);
                        assert(old(fs).names()[k] == p);
                    }
                }
                assert forall|p: Seq<char>| #[trigger] fs.names().contains(p) implies
                    fs.files()[p] == old(fs).files().insert(path@, content@)[p] by {
                    if p == path@ {
                        lemma_index_of_unique(fs.names(), n);
                    } else {
                        let k = fs.names().index_of(p);
                        lemma_index_of_unique(fs.names(), k);
                        assert(old(fs).names()[k] == p);
                        lemma_index_of_unique(old(fs).names(), k);
                    }
                }
                assert(fs.files() =~= old(fs).files().insert(path@, content@));
            }
        },
    }
}

/// The bytes stored at `path`, if any.
pub fn read_file(fs: &MemFS, path: &str) -> (r: Option<Vec<u8>>)
    requires
        fs.wf(),
    ensures
        r is Some <==> fs.files().contains_key(path@),
        r matches Some(v) ==> v@ == fs.files()[path@],
{
    let key = path.to_owned();
    match fs.find(&key) {
        Some(i) => Some(slice_to_vec(fs.contents[i].as_slice())),
        None => None,
    }
}

/// The stored paths, in listing order.
pub fn list_dir(fs: &MemFS) -> (r: Vec<String>)
    requires
        fs.wf(),
    ensures
        name_views(r@) == fs.names(),
{
    let mut out: Vec<String> = Vec::new();
    let mut i: usize = 0;
    while i < fs.names.len()
        invariant
            i <= fs.names@.len(),
            out@.len() == i,
            name_views(out@) == fs.names().subrange(0, i as int),
        decreases fs.names@.len() - i,
    {
        let ghost before = out@;
        out.push(fs.names[i].clone());
        proof {
            assert(out@ == before.push(fs.names@[i as int]));
            assert(fs.names()[i as int] == fs.names@[i as int]@);
        }
        i += 1;
        assert(name_views(out@) =~= fs.names().subrange(0, i as int));
    }
    assert(fs.names().subrange(0, i as int) =~= fs.names());
    out
}

} // verus!
