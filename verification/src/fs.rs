use vstd::prelude::*;

verus! {

/// A node of the in-memory file system: a file's bytes, or a directory's
/// named children in creation order.
pub enum AtomNode {
    File(Vec<u8>),
    Directory(Vec<(String, AtomNode)>),
}

/// Child `i` is the first child named `name`.
pub open spec fn first_named(children: Seq<(String, AtomNode)>, name: Seq<char>, i: int) -> bool {
    &&& 0 <= i < children.len()
    &&& children[i].0@ == name
    &&& forall|j: int| 0 <= j < i ==> #[trigger] children[j].0@ != name
}

/// A child named `name` at `j` means there is a first one, at or before `j`.
pub proof fn lemma_first_named_exists(children: Seq<(String, AtomNode)>, name: Seq<char>, j: int)
    requires
        0 <= j < children.len(),
        children[j].0@ == name,
    ensures
        exists|k: int| #[trigger] first_named(children, name, k),
    decreases j,
{
    if exists|m: int| 0 <= m < j && #[trigger] children[m].0@ == name {
        let m = choose|m: int| 0 <= m < j && #[trigger] children[m].0@ == name;
        lemma_first_named_exists(children, name, m);
    } else {
        assert(first_named(children, name, j));
    }
}

/// The bytes behind file handle `h` in the directory `fs`: handle `k + 1`
/// names child `k` when that child is a file.
pub open spec fn root_file(fs: AtomNode, h: u64) -> Option<Seq<u8>> {
    match fs {
        AtomNode::Directory(ch) =>
            if 1 <= h <= ch@.len() && ch@[h - 1].1 is File { Some(ch@[h - 1].1->File_0@) } else { None },
        AtomNode::File(_) => None,
    }
}

/// `fs2` is the directory `fs` with the file behind handle `h` now holding
/// `data`, and every other child unchanged.
pub open spec fn file_replaced(fs: AtomNode, fs2: AtomNode, h: u64, data: Seq<u8>) -> bool {
    &&& fs matches AtomNode::Directory(ch)
    &&& fs2 matches AtomNode::Directory(ch2)
    &&& ch2@.len() == ch@.len()
    &&& 1 <= h <= ch@.len()
    &&& forall|j: int| 0 <= j < ch@.len() && j != h - 1 ==> #[trigger] ch2@[j] == ch@[j]
    &&& ch2@[h - 1].0 == ch@[h - 1].0
    &&& ch2@[h - 1].1 matches AtomNode::File(d) && d@ == data
}

impl AtomNode {
    /// An empty directory.
    pub fn new_dir() -> (n: Self)
        ensures
            n matches AtomNode::Directory(c) && c@.len() == 0,
    {
        AtomNode::Directory(Vec::new())
    }

    /// In a directory, finds the child named `filename` and returns its
    /// position when it is a file, or `None` when it is a directory; when
    /// no child has that name, appends an empty file of that name and
    /// returns its position. A file has no children, so on a file this
    /// gives `None`.
    pub fn get_or_create_file(&mut self, filename: &str) -> (r: Option<usize>)
        ensures
            match *old(self) {
                AtomNode::File(_) => r is None && *final(self) == *old(self),
                AtomNode::Directory(ch) => {
                    &&& forall|i: int| #[trigger] first_named(ch@, filename@, i) ==> {
                        &&& *final(self) == *old(self)
                        &&& (ch@[i].1 is File ==> r == Some(i as usize))
                        &&& (ch@[i].1 is Directory ==> r is None)
                    }
                    &&& (forall|j: int| 0 <= j < ch@.len() ==> #[trigger] ch@[j].0@ != filename@) ==> {
                        &&& r == Some(ch@.len() as usize)
                        &&& *final(self) matches AtomNode::Directory(ch2) && {
                            &&& ch2.len() == ch@.len() + 1
                            &&& ch2@.take(ch@.len() as int) == ch@
                            &&& ch2@.last().0@ == filename@
                            &&& ch2@.last().1 matches AtomNode::File(data) && data@.len() == 0
                        }
                    }
                },
            },
    {
        let target = filename.to_owned();
        match self.find_child(&target) {
            Some((i, is_file)) => {
                if is_file { Some(i) } else { None }
            },
            None => {
                let ghost old_children = old(self)->Directory_0@;
                match self {
                    AtomNode::Directory(children) => {
                        let n = children.len();
                        children.push((target, AtomNode::File(Vec::new())));
                        assert(children@.take(n as int) =~= old_children);
                        Some(n)
                    },
                    AtomNode::File(_) => None,
                }
            },
        }
    }

    /// The bytes behind handle `h`, when it names a file.
    pub(crate) fn file_bytes(&self, h: u64) -> (r: Option<&Vec<u8>>)
        ensures
            match r {
                Some(d) => root_file(*self, h) == Some(d@),
                None => root_file(*self, h) is None,
            },
    {
        match self {
            AtomNode::Directory(children) => {
                if h >= 1 && h <= children.len() as u64 {
                    match &children[(h - 1) as usize].1 {
                        AtomNode::File(data) => Some(data),
                        AtomNode::Directory(_) => None,
                    }
                } else {
                    None
                }
            },
            AtomNode::File(_) => None,
        }
    }

    /// Appends `b` to the file behind handle `h`; `false`, with nothing
    /// changed, when `h` names no file.
    pub(crate) fn file_push(&mut self, h: u64, b: u8) -> (ok: bool)
        ensures
            ok == root_file(*old(self), h) is Some,
            ok ==> file_replaced(*old(self), *final(self), h, root_file(*old(self), h)->Some_0.push(b)),
            !ok ==> *final(self) == *old(self),
    {
        match self {
            AtomNode::Directory(children) => {
                if h >= 1 && h <= children.len() as u64 {
                    let i = (h - 1) as usize;
                    if let AtomNode::Directory(_) = &children[i].1 {
                        return false;
                    }
                    match &mut children[i].1 {
                        AtomNode::File(data) => {
                            data.push(b);
                        },
                        AtomNode::Directory(_) => {},
                    }
                    true
                } else {
                    false
                }
            },
            AtomNode::File(_) => false,
        }
    }

    /// Empties the file behind handle `h`; `false`, with nothing changed,
    /// when `h` names no file.
    pub(crate) fn file_clear(&mut self, h: u64) -> (ok: bool)
        ensures
            ok == root_file(*old(self), h) is Some,
            ok ==> file_replaced(*old(self), *final(self), h, Seq::empty()),
            !ok ==> *final(self) == *old(self),
    {
        match self {
            AtomNode::Directory(children) => {
                if h >= 1 && h <= children.len() as u64 {
                    let i = (h - 1) as usize;
                    if let AtomNode::Directory(_) = &children[i].1 {
                        return false;
                    }
                    match &mut children[i].1 {
                        AtomNode::File(data) => {
                            data.clear();
                        },
                        AtomNode::Directory(_) => {},
                    }
                    true
                } else {
                    false
                }
            },
            AtomNode::File(_) => false,
        }
    }

    /// In a directory, the position of the first child named `name` and
    /// whether it is a file.
    pub(crate) fn find_child(&self, name: &String) -> (r: Option<(usize, bool)>)
        ensures
            match *self {
                AtomNode::File(_) => r is None,
                AtomNode::Directory(ch) => match r {
                    Some((i, is_file)) => first_named(ch@, name@, i as int)
                        && (forall|k: int| #[trigger] first_named(ch@, name@, k) ==> k == i)
                        && is_file == (ch@[i as int].1 is File),
                    None => forall|j: int| 0 <= j < ch@.len() ==> #[trigger] ch@[j].0@ != name@,
                },
            },
    {
        match self {
            AtomNode::Directory(children) => {
                let mut i: usize = 0;
                while i < children.len()
                    invariant
                        i <= children@.len(),
                        *self is Directory,
                        self->Directory_0 == *children,
                        forall|j: int| 0 <= j < i ==> #[trigger] children@[j].0@ != name@,
                    decreases children@.len() - i,
                {
                    if children[i].0 == *name {
                        assert(first_named(children@, name@, i as int));
                        proof {
                            assert forall|k: int| #[trigger] first_named(children@, name@, k) implies k == i by {
                                if k > i {
                                    assert(children@[i as int].0@ == name@);
                                }
                            }
                        }
                        let is_file = match &children[i].1 {
                            AtomNode::File(_) => true,
                            AtomNode::Directory(_) => false,
                        };
                        return Some((i, is_file));
                    }
                    i = i + 1;
                }
                None
            },
            AtomNode::File(_) => None,
        }
    }
}

} // verus!
