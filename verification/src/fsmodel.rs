use vstd::prelude::*;
use crate::paths::{PathSpec, path_eq, lemma_bytes_deep_view, copy_bytes};

verus! {

/// One regular file of the install directory model.
pub struct FileNode {
    pub path: Vec<Vec<u8>>,
    pub data: Vec<u8>,
}

/// The modelled state of the install directory: its regular files with
/// their contents, and the directories that exist.
pub struct DirTree {
    pub files: Vec<FileNode>,
    pub dirs: Vec<Vec<Vec<u8>>>,
}

/// The mathematical view of a [`DirTree`]: contents by path, and the set
/// of directories.
#[verifier::ext_equal]
pub struct FsView {
    pub files: Map<PathSpec, Seq<u8>>,
    pub dirs: Set<PathSpec>,
}

/// The files of `s` as a map from path to contents; a later node wins on
/// a repeated path.
pub open spec fn files_map(s: Seq<FileNode>) -> Map<PathSpec, Seq<u8>>
    decreases s.len(),
{
    if s.len() == 0 {
        Map::empty()
    } else {
        files_map(s.drop_last()).insert(s.last().path.deep_view(), s.last().data@)
    }
}

/// The directories of `s` as a set.
pub open spec fn dirs_set(s: Seq<Vec<Vec<u8>>>) -> Set<PathSpec>
    decreases s.len(),
{
    if s.len() == 0 {
        Set::empty()
    } else {
        dirs_set(s.drop_last()).insert(s.last().deep_view())
    }
}

impl View for DirTree {
    type V = FsView;

    open spec fn view(&self) -> FsView {
        FsView { files: files_map(self.files@), dirs: dirs_set(self.dirs@) }
    }
}

/// Every non-empty prefix of `p`, the directories that must exist for a
/// file or directory at `p`.
pub open spec fn path_prefixes(p: PathSpec) -> Set<PathSpec> {
    Set::new(|q: PathSpec| 1 <= q.len() <= p.len() && q == p.subrange(0, q.len() as int))
}

proof fn lemma_files_map_contains(s: Seq<FileNode>, k: PathSpec)
    ensures
        files_map(s).contains_key(k) <==> exists|i: int|
            0 <= i < s.len() && s[i].path.deep_view() == k,
    decreases s.len(),
{
    if s.len() > 0 {
        lemma_files_map_contains(s.drop_last(), k);
        if s.last().path.deep_view() == k {
            assert(s[s.len() - 1].path.deep_view() == k);
        } else {
            assert(forall|i: int|
                0 <= i < s.len() - 1 ==> s.drop_last()[i] == s[i]);
            if exists|i: int| 0 <= i < s.len() && s[i].path.deep_view() == k {
                let i = choose|i: int| 0 <= i < s.len() && s[i].path.deep_view() == k;
                assert(i < s.len() - 1);
                assert(s.drop_last()[i].path.deep_view() == k);
            }
        }
    }
}

proof fn lemma_files_map_value(s: Seq<FileNode>, i: int)
    requires
        0 <= i < s.len(),
        forall|a: int, b: int|
            0 <= a < b < s.len() ==> s[a].path.deep_view() != s[b].path.deep_view(),
    ensures
        files_map(s).contains_key(s[i].path.deep_view()),
        files_map(s)[s[i].path.deep_view()] == s[i].data@,
    decreases s.len(),
{
    if i == s.len() - 1 {
    } else {
        assert(forall|a: int, b: int|
            0 <= a < b < s.drop_last().len() ==> s.drop_last()[a].path.deep_view()
                != s.drop_last()[b].path.deep_view());
        lemma_files_map_value(s.drop_last(), i);
        assert(s[i].path.deep_view() != s.last().path.deep_view());
    }
}

proof fn lemma_dirs_set_contains(s: Seq<Vec<Vec<u8>>>, k: PathSpec)
    ensures
        dirs_set(s).contains(k) <==> exists|i: int| 0 <= i < s.len() && s[i].deep_view() == k,
    decreases s.len(),
{
    if s.len() > 0 {
        lemma_dirs_set_contains(s.drop_last(), k);
        if s.last().deep_view() == k {
            assert(s[s.len() - 1].deep_view() == k);
        } else {
            if exists|i: int| 0 <= i < s.len() && s[i].deep_view() == k {
                let i = choose|i: int| 0 <= i < s.len() && s[i].deep_view() == k;
                assert(i < s.len() - 1);
                assert(s.drop_last()[i].deep_view() == k);
            }
        }
    }
}

proof fn lemma_files_map_update(s: Seq<FileNode>, i: int, node: FileNode)
    requires
        0 <= i < s.len(),
        forall|a: int, b: int|
            0 <= a < b < s.len() ==> s[a].path.deep_view() != s[b].path.deep_view(),
        node.path.deep_view() == s[i].path.deep_view(),
    ensures
        files_map(s.update(i, node)) == files_map(s).insert(node.path.deep_view(), node.data@),
    decreases s.len(),
{
    let k = node.path.deep_view();
    if i == s.len() - 1 {
        assert(s.update(i, node).drop_last() =~= s.drop_last());
        assert(s.update(i, node).last() == node);
        assert(files_map(s.update(i, node)) =~= files_map(s).insert(k, node.data@));
    } else {
        assert(s.update(i, node).drop_last() =~= s.drop_last().update(i, node));
        assert(forall|a: int, b: int|
            0 <= a < b < s.drop_last().len() ==> s.drop_last()[a].path.deep_view()
                != s.drop_last()[b].path.deep_view());
        lemma_files_map_update(s.drop_last(), i, node);
        assert(s.update(i, node).last() == s.last());
        assert(s.last().path.deep_view() != k);
        assert(files_map(s.update(i, node)) =~= files_map(s).insert(k, node.data@));
    }
}

impl DirTree {
    /// Paths of distinct files are distinct, so contents-by-path is
    /// unambiguous.
    pub open spec fn wf(&self) -> bool {
        forall|a: int, b: int|
            0 <= a < b < self.files@.len() ==> self.files@[a].path.deep_view()
                != self.files@[b].path.deep_view()
    }

    /// An empty install directory.
    pub fn new() -> (r: DirTree)
        ensures
            r.wf(),
            r@.files == Map::<PathSpec, Seq<u8>>::empty(),
            r@.dirs == Set::<PathSpec>::empty(),
    {
        DirTree { files: Vec::new(), dirs: Vec::new() }
    }

    /// The position of the file at `p`, if any.
    fn find_file(&self, p: &Vec<Vec<u8>>) -> (r: Option<usize>)
        ensures
            match r {
                Some(i) => i < self.files@.len() && self.files@[i as int].path.deep_view()
                    == p.deep_view(),
                None => forall|i: int|
                    0 <= i < self.files@.len() ==> self.files@[i].path.deep_view()
                        != p.deep_view(),
            },
    {
        let n: usize = self.files.len();
        let mut i: usize = 0;
        while i < n
            invariant
                0 <= i <= n,
                n == self.files@.len(),
                forall|k: int|
                    0 <= k < i ==> self.files@[k].path.deep_view() != p.deep_view(),
            decreases n - i,
        {
            if path_eq(&self.files[i].path, p) {
                return Some(i);
            }
            i = i + 1;
        }
        None
    }

    /// Whether a file exists at `p`.
    pub fn contains_file(&self, p: &Vec<Vec<u8>>) -> (r: bool)
        ensures
            r == self@.files.contains_key(p.deep_view()),
    {
        proof {
            lemma_files_map_contains(self.files@, p.deep_view());
        }
        self.find_file(p).is_some()
    }

    /// The contents of the file at `p`, if any.
    pub fn read_file(&self, p: &Vec<Vec<u8>>) -> (r: Option<&Vec<u8>>)
        requires
            self.wf(),
        ensures
            match r {
                Some(d) => self@.files.contains_key(p.deep_view()) && d@ == self@.files[p.deep_view()],
                None => !self@.files.contains_key(p.deep_view()),
            },
    {
        proof {
            lemma_files_map_contains(self.files@, p.deep_view());
        }
        match self.find_file(p) {
            Some(i) => {
                proof {
                    lemma_files_map_value(self.files@, i as int);
                }
                Some(&self.files[i].data)
            },
            None => None,
        }
    }

    /// Create or overwrite the file at `p` with `data`.
    pub fn set_file(&mut self, p: Vec<Vec<u8>>, data: Vec<u8>)
        requires
            old(self).wf(),
        ensures
            final(self).wf(),
            final(self)@.files == old(self)@.files.insert(p.deep_view(), data@),
            final(self)@.dirs == old(self)@.dirs,
    {
        let ghost k = p.deep_view();
        proof {
            lemma_files_map_contains(self.files@, k);
        }
        match self.find_file(&p) {
            Some(i) => {
                let node = FileNode { path: p, data };
                let ghost pre = self.files@;
                self.files[i] = node;
                proof {
                    assert(self.files@ == pre.update(i as int, node));
                    lemma_files_map_update(pre, i as int, node);
                }
            },
            None => {
                let node = FileNode { path: p, data };
                let ghost pre = self.files@;
                self.files.push(node);
                proof {
                    assert(self.files@.drop_last() =~= pre);
                    assert(self.files@.last() == node);
                }
            },
        }
    }

    /// Delete the file at `p`, if it exists.
    pub fn remove_file(&mut self, p: &Vec<Vec<u8>>)
        requires
            old(self).wf(),
        ensures
            final(self).wf(),
            final(self)@.files == old(self)@.files.remove(p.deep_view()),
            final(self)@.dirs == old(self)@.dirs,
    {
        let ghost k = p.deep_view();
        let ghost s = self.files@;
        let n: usize = self.files.len();
        let mut kept: Vec<FileNode> = Vec::new();
        let mut i: usize = 0;
        while i < n
            invariant
                0 <= i <= n,
                n == s.len(),
                self.files@ == s,
                self.wf(),
                k == p.deep_view(),
                files_map(kept@) == files_map(s.take(i as int)).remove(k),
                forall|a: int, b: int|
                    0 <= a < b < kept@.len() ==> kept@[a].path.deep_view()
                        != kept@[b].path.deep_view(),
                forall|a: int|
                    0 <= a < kept@.len() ==> kept@[a].path.deep_view() != k && exists|b: int|
                        0 <= b < i && s[b].path.deep_view() == #[trigger] kept@[
                            a
                        ].path.deep_view(),
            decreases n - i,
        {
            proof {
                assert(s.take(i + 1).drop_last() =~= s.take(i as int));
                assert(s.take(i + 1).last() == s[i as int]);
            }
            let node = &self.files[i];
            if path_eq(&node.path, p) {
                proof {
                    assert(files_map(s.take(i + 1)) == files_map(s.take(i as int)).insert(
                        k,
                        s[i as int].data@,
                    ));
                    assert(files_map(s.take(i + 1)).remove(k) =~= files_map(
                        s.take(i as int),
                    ).remove(k));
                }
            } else {
                let moved = FileNode {
                    path: copy_path(&node.path),
                    data: copy_bytes(&node.data),
                };
                proof {
                    assert(moved.path.deep_view() == s[i as int].path.deep_view());
                }
                let ghost prek = kept@;
                kept.push(moved);
                proof {
                    assert(kept@.drop_last() =~= prek);
                    assert(files_map(kept@) == files_map(prek).insert(
                        s[i as int].path.deep_view(),
                        s[i as int].data@,
                    ));
                    assert(files_map(kept@) =~= files_map(s.take(i + 1)).remove(k));
                }
            }
            i = i + 1;
        }
        proof {
            assert(s.take(n as int) =~= s);
        }
        self.files = kept;
    }

    /// Whether a directory exists at `p`.
    pub fn contains_dir(&self, p: &Vec<Vec<u8>>) -> (r: bool)
        ensures
            r == self@.dirs.contains(p.deep_view()),
    {
        proof {
            lemma_dirs_set_contains(self.dirs@, p.deep_view());
        }
        let n: usize = self.dirs.len();
        let mut i: usize = 0;
        while i < n
            invariant
                0 <= i <= n,
                n == self.dirs@.len(),
                forall|j: int| 0 <= j < i ==> self.dirs@[j].deep_view() != p.deep_view(),
            decreases n - i,
        {
            if path_eq(&self.dirs[i], p) {
                proof {
                    assert(self.dirs@[i as int].deep_view() == p.deep_view());
                    assert(exists|j: int|
                        0 <= j < self.dirs@.len() && self.dirs@[j].deep_view()
                            == p.deep_view());
                    lemma_dirs_set_contains(self.dirs@, p.deep_view());
                }
                return true;
            }
            i = i + 1;
        }
        false
    }

    /// Create the directory at `p` and every missing parent, as creating
    /// a directory recursively does.
    pub fn mkdir_all(&mut self, p: &Vec<Vec<u8>>)
        requires
            old(self).wf(),
        ensures
            final(self).wf(),
            final(self)@.files == old(self)@.files,
            final(self)@.dirs == old(self)@.dirs + path_prefixes(p.deep_view()),
    {
        let n: usize = p.len();
        let ghost pv = p.deep_view();
        let mut l: usize = 0;
        while l < n
            invariant
                0 <= l <= n,
                n == p@.len() == pv.len(),
                pv == p.deep_view(),
                self.wf(),
                self.files@ == old(self).files@,
                self@.dirs == old(self)@.dirs + Set::new(
                    |q: PathSpec| 1 <= q.len() <= l && q == pv.subrange(0, q.len() as int),
                ),
            decreases n - l,
        {
            let mut prefix: Vec<Vec<u8>> = Vec::new();
            let mut j: usize = 0;
            proof {
                assert(prefix.deep_view() =~= pv.subrange(0, 0));
            }
            while j < l + 1
                invariant
                    0 <= j <= l + 1 <= n,
                    n == p@.len() == pv.len(),
                    pv == p.deep_view(),
                    prefix.deep_view() == pv.subrange(0, j as int),
                decreases l + 1 - j,
            {
                let ghost pre = prefix.deep_view();
                let c = copy_bytes(&p[j]);
                proof {
                    lemma_bytes_deep_view(&c);
                    lemma_bytes_deep_view(&p[j as int]);
                }
                prefix.push(c);
                proof {
                    assert(prefix.deep_view() =~= pre.push(pv[j as int]));
                    assert(prefix.deep_view() =~= pv.subrange(0, j + 1));
                }
                j = j + 1;
            }
            if !self.contains_dir(&prefix) {
                let ghost pred = self.dirs@;
                self.dirs.push(prefix);
                proof {
                    assert(self.dirs@.drop_last() =~= pred);
                }
            }
            proof {
                assert(self@.dirs =~= old(self)@.dirs + Set::new(
                    |q: PathSpec| 1 <= q.len() <= l + 1 && q == pv.subrange(0, q.len() as int),
                ));
            }
            l = l + 1;
        }
        proof {
            assert(old(self)@.dirs + Set::new(
                |q: PathSpec| 1 <= q.len() <= n && q == pv.subrange(0, q.len() as int),
            ) =~= old(self)@.dirs + path_prefixes(pv));
        }
    }
}

/// Copy a path component by component.
pub fn copy_path(p: &Vec<Vec<u8>>) -> (r: Vec<Vec<u8>>)
    ensures
        r.deep_view() == p.deep_view(),
{
    let n: usize = p.len();
    let mut r: Vec<Vec<u8>> = Vec::new();
    proof {
        assert(r.deep_view() =~= p.deep_view().subrange(0, 0));
    }
    let mut i: usize = 0;
    while i < n
        invariant
            0 <= i <= n,
            n == p@.len() == p.deep_view().len(),
            r.deep_view() == p.deep_view().subrange(0, i as int),
        decreases n - i,
    {
        let ghost pre = r.deep_view();
        let c = copy_bytes(&p[i]);
        proof {
            lemma_bytes_deep_view(&c);
            lemma_bytes_deep_view(&p[i as int]);
        }
        r.push(c);
        proof {
            assert(r.deep_view() =~= pre.push(p.deep_view()[i as int]));
            assert(r.deep_view() =~= p.deep_view().subrange(0, i + 1));
        }
        i = i + 1;
    }
    proof {
        assert(p.deep_view().subrange(0, n as int) =~= p.deep_view());
    }
    r
}

} // verus!
