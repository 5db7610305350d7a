//! In-memory secure-delete simulator for enumerated local stores.
use vstd::prelude::*;
use crate::keyed::{KeyedList, key_index, lemma_key_index};
use crate::text::{bytes_contain, bytes_contains, text};
use crate::text_set::{insert_sorted_unique, string_set, strings_sorted};

verus! {

/// Some stored file holds `needle`, which is not empty.
pub open spec fn material_present(files: Map<Seq<char>, Seq<u8>>, needle: Seq<u8>) -> bool {
    needle.len() > 0 && exists|k: Seq<char>| #[trigger] files.contains_key(k) && bytes_contain(files[k], needle)
}

/// The stored files with `paths` removed.
pub open spec fn without(files: Map<Seq<char>, Seq<u8>>, paths: Set<Seq<char>>) -> Map<Seq<char>, Seq<u8>> {
    files.restrict(files.dom().difference(paths))
}

/// Deleting every file that holds the material leaves none of it behind.
pub proof fn law_delete_removes_material(files: Map<Seq<char>, Seq<u8>>, paths: Set<Seq<char>>, needle: Seq<u8>)
    requires
        forall|k: Seq<char>| #[trigger] files.contains_key(k) && bytes_contain(files[k], needle) ==> paths.contains(k),
    ensures
        !material_present(without(files, paths), needle),
{
    if material_present(without(files, paths), needle) {
        let k = choose|k: Seq<char>| #[trigger] without(files, paths).contains_key(k) && bytes_contain(
            without(files, paths)[k],
            needle,
        );
        assert(files.contains_key(k) && bytes_contain(files[k], needle));
    }
}

/// In-memory secure-delete simulator for enumerated local stores.
#[derive(Debug)]
pub struct SecureDeleteSimulator {
    files: KeyedList<Vec<u8>>,
    deleted_paths: Vec<String>,
}

fn copy_files(l: &KeyedList<Vec<u8>>) -> (r: KeyedList<Vec<u8>>)
    requires
        l.wf(),
    ensures
        r.wf(),
        r.items@.len() == l.items@.len(),
        forall|i: int| 0 <= i < l.items@.len() ==> (#[trigger] r.items@[i]).0@ == l.items@[i].0@ && r.items@[i].1@
            == l.items@[i].1@,
{
    let mut items: Vec<(String, Vec<u8>)> = Vec::new();
    let n = l.items.len();
    let mut i: usize = 0;
    while i < n
        invariant
            n == l.items@.len(),
            i <= n,
            items@.len() == i,
            forall|k: int| 0 <= k < i ==> (#[trigger] items@[k]).0@ == l.items@[k].0@ && items@[k].1@ == l.items@[k].1@,
        decreases n - i,
    {
        let key = l.items[i].0.clone();
        let value = l.items[i].1.clone();
        items.push((key, value));
        i = i + 1;
    }
    let r = KeyedList { items };
    proof {
        assert forall|a: int, b: int| 0 <= a < r.items@.len() && 0 <= b < r.items@.len() && a != b implies (
        #[trigger] r.items@[a]).0@ != (#[trigger] r.items@[b]).0@ by {
            assert(l.items@[a].0@ != l.items@[b].0@);
        }
    }
    r
}

/// The files of a list, by view.
pub open spec fn files_view(l: KeyedList<Vec<u8>>) -> Map<Seq<char>, Seq<u8>> {
    l.view_map().map_values(|v: Vec<u8>| v@)
}

proof fn lemma_copy_same_view(a: KeyedList<Vec<u8>>, b: KeyedList<Vec<u8>>)
    requires
        a.wf(),
        b.wf(),
        a.items@.len() == b.items@.len(),
        forall|i: int| 0 <= i < a.items@.len() ==> (#[trigger] b.items@[i]).0@ == a.items@[i].0@ && b.items@[i].1@
            == a.items@[i].1@,
    ensures
        files_view(a) == files_view(b),
{
    assert forall|k: Seq<char>| #[trigger] a.has(k) == b.has(k) by {
        if a.has(k) {
            let j = choose|j: int| 0 <= j < a.items@.len() && (#[trigger] a.items@[j]).0@ == k;
            assert(b.items@[j].0@ == k);
        }
        if b.has(k) {
            let j = choose|j: int| 0 <= j < b.items@.len() && (#[trigger] b.items@[j]).0@ == k;
            assert(a.items@[j].0@ == k);
        }
    }
    assert forall|k: Seq<char>| a.has(k) implies #[trigger] a.at(k)@ == b.at(k)@ by {
        lemma_key_index(a.items@, k);
        lemma_key_index(b.items@, k);
        let j = key_index(a.items@, k);
        assert(b.items@[j].0@ == k);
    }
    assert(files_view(a) =~= files_view(b));
}

impl SecureDeleteSimulator {
    #[verifier::type_invariant]
    spec fn simulator_inv(self) -> bool {
        self.files.wf() && strings_sorted(self.deleted_paths@)
    }

    /// Stored files by path.
    pub closed spec fn files(&self) -> Map<Seq<char>, Seq<u8>> {
        files_view(self.files)
    }

    /// Paths enumerated for deletion.
    pub closed spec fn deleted(&self) -> Set<Seq<char>> {
        string_set(self.deleted_paths@)
    }

    /// An empty simulator.
    pub fn new() -> (r: Self)
        ensures
            r.files() == Map::<Seq<char>, Seq<u8>>::empty(),
            r.deleted() == Set::<Seq<char>>::empty(),
    {
        let r = SecureDeleteSimulator { files: KeyedList::new(), deleted_paths: Vec::new() };
        assert(r.files() =~= Map::<Seq<char>, Seq<u8>>::empty());
        assert(r.deleted() =~= Set::<Seq<char>>::empty());
        r
    }

    /// Add a simulated local file or key-store blob.
    pub fn write(&mut self, path: &str, bytes: Vec<u8>)
        ensures
            final(self).files() == old(self).files().insert(path@, bytes@),
            final(self).deleted() == old(self).deleted(),
    {
        proof {
            use_type_invariant(&*self);
        }
        let ghost b = bytes@;
        let mut files = KeyedList::new();
        std::mem::swap(&mut files, &mut self.files);
        let ghost before = files;
        files.upsert(text(path), bytes);
        proof {
            assert(files_view(files) =~= files_view(before).insert(path@, b));
        }
        self.files = files;
    }

    /// Snapshot all simulated files before a two-phase destructive operation.
    pub fn snapshot(&self) -> (r: KeyedList<Vec<u8>>)
        ensures
            r.wf(),
            files_view(r) == self.files(),
    {
        proof {
            use_type_invariant(self);
        }
        let r = copy_files(&self.files);
        proof {
            lemma_copy_same_view(self.files, r);
        }
        r
    }

    /// Restore a previous snapshot, used when shred verification fails.
    pub fn restore(&mut self, snapshot: KeyedList<Vec<u8>>)
        requires
            snapshot.wf(),
        ensures
            final(self).files() == files_view(snapshot),
            final(self).deleted() == Set::<Seq<char>>::empty(),
    {
        *self = SecureDeleteSimulator { files: snapshot, deleted_paths: Vec::new() };
        assert(self.deleted() =~= Set::<Seq<char>>::empty());
    }

    /// Remove each enumerated path and record it as deleted.
    pub fn secure_delete(&mut self, paths: &[&str])
        ensures
            final(self).files() == without(old(self).files(), paths@.map_values(|p: &str| p@).to_set()),
            final(self).deleted() == old(self).deleted().union(paths@.map_values(|p: &str| p@).to_set()),
    {
        proof {
            use_type_invariant(&*self);
        }
        let ghost ps = paths@.map_values(|p: &str| p@);
        let mut files = KeyedList::new();
        std::mem::swap(&mut files, &mut self.files);
        let mut deleted: Vec<String> = Vec::new();
        std::mem::swap(&mut deleted, &mut self.deleted_paths);
        let ghost files0 = files_view(files);
        let ghost deleted0 = string_set(deleted@);
        let n = paths.len();
        let mut i: usize = 0;
        proof {
            assert(ps.take(0).to_set() =~= Set::<Seq<char>>::empty());
            assert(without(files0, Set::empty()) =~= files0);
            assert(deleted0.union(Set::empty()) =~= deleted0);
        }
        while i < n
            invariant
                n == paths@.len(),
                ps == paths@.map_values(|p: &str| p@),
                i <= n,
                files.wf(),
                strings_sorted(deleted@),
                files_view(files) == without(files0, ps.take(i as int).to_set()),
                string_set(deleted@) == deleted0.union(ps.take(i as int).to_set()),
            decreases n - i,
        {
            let path = paths[i];
            let ghost before = files;
            match files.position(path) {
                Some(k) => {
                    files.remove_at(k);
                    proof {
                        lemma_remove_files(before, k as int, files);
                    }
                },
                None => {
                    assert(files_view(files) =~= files_view(before).remove(path@));
                },
            }
            insert_sorted_unique(&mut deleted, path);
            proof {
                assert(ps[i as int] == path@);
                assert(ps.take(i + 1) =~= ps.take(i as int).push(path@));
                assert(ps.take(i as int).push(path@) =~= ps.take(i as int) + seq![path@]);
                Seq::lemma_to_set_insert_commutes(ps.take(i as int), path@);
                assert(files_view(files) =~= without(files0, ps.take(i + 1).to_set()));
                assert(string_set(deleted@) =~= deleted0.union(ps.take(i + 1).to_set()));
            }
            i = i + 1;
        }
        assert(ps.take(n as int) =~= ps);
        self.files = files;
        self.deleted_paths = deleted;
    }

    /// True when any retained simulated file still contains the needle.
    pub fn contains_material(&self, needle: &[u8]) -> (b: bool)
        ensures
            b == material_present(self.files(), needle@),
    {
        proof {
            use_type_invariant(self);
        }
        if needle.len() == 0 {
            return false;
        }
        let n = self.files.items.len();
        let mut i: usize = 0;
        while i < n
            invariant
                n == self.files.items@.len(),
                self.files.wf(),
                needle@.len() > 0,
                i <= n,
                forall|k: int| 0 <= k < i ==> !bytes_contain((#[trigger] self.files.items@[k]).1@, needle@),
            decreases n - i,
        {
            if bytes_contains(self.files.items[i].1.as_slice(), needle) {
                proof {
                    let k = self.files.items@[i as int].0@;
                    lemma_key_index(self.files.items@, k);
                    assert(self.files.has(k));
                    assert(self.files.at(k) == self.files.items@[i as int].1);
                    assert(self.files().contains_key(k));
                    assert(self.files()[k] == self.files.items@[i as int].1@);
                    assert(bytes_contain(self.files.items@[i as int].1@, needle@));
                    assert(bytes_contain(self.files()[k], needle@));
                    assert(material_present(self.files(), needle@));
                }
                return true;
            }
            i = i + 1;
        }
        proof {
            if material_present(self.files(), needle@) {
                let k = choose|k: Seq<char>| #[trigger] self.files().contains_key(k) && bytes_contain(self.files()[k], needle@);
                lemma_key_index(self.files.items@, k);
            }
        }
        false
    }

    /// True when all paths have been enumerated for deletion.
    pub fn deleted_all(&self, paths: &[&str]) -> (b: bool)
        ensures
            b == (forall|i: int| 0 <= i < paths@.len() ==> self.deleted().contains((#[trigger] paths@[i])@)),
    {
        proof {
            use_type_invariant(self);
        }
        let n = paths.len();
        let mut i: usize = 0;
        while i < n
            invariant
                n == paths@.len(),
                i <= n,
                forall|k: int| 0 <= k < i ==> self.deleted().contains((#[trigger] paths@[k])@),
            decreases n - i,
        {
            if !crate::text::contains_string(&self.deleted_paths, paths[i]) {
                proof {
                    let vs = self.deleted_paths@.map_values(|x: String| x@);
                    if vs.contains(paths@[i as int]@) {
                        let k = choose|k: int| 0 <= k < vs.len() && vs[k] == paths@[i as int]@;
                        assert(self.deleted_paths@[k]@ == paths@[i as int]@);
                    }
                }
                return false;
            }
            proof {
                let vs = self.deleted_paths@.map_values(|x: String| x@);
                let k = choose|k: int| 0 <= k < self.deleted_paths@.len() && #[trigger] self.deleted_paths@[k]@ == paths@[i as int]@;
                assert(vs[k] == paths@[i as int]@);
            }
            i = i + 1;
        }
        true
    }
}

impl Default for SecureDeleteSimulator {
    fn default() -> (r: Self)
        ensures
            r.files() == Map::<Seq<char>, Seq<u8>>::empty(),
            r.deleted() == Set::<Seq<char>>::empty(),
    {
        SecureDeleteSimulator::new()
    }
}

proof fn lemma_remove_files(before: KeyedList<Vec<u8>>, i: int, after: KeyedList<Vec<u8>>)
    requires
        before.wf(),
        after.wf(),
        0 <= i < before.items@.len(),
        after.items@ == before.items@.remove(i),
    ensures
        files_view(after) == files_view(before).remove(before.items@[i].0@),
{
    let k0 = before.items@[i].0@;
    assert forall|k: Seq<char>| #[trigger] after.has(k) == (before.has(k) && k != k0) by {
        if after.has(k) {
            let j = choose|j: int| 0 <= j < after.items@.len() && (#[trigger] after.items@[j]).0@ == k;
            let jj = if j < i { j } else { j + 1 };
            assert(before.items@[jj].0@ == k);
        }
        if before.has(k) && k != k0 {
            let j = choose|j: int| 0 <= j < before.items@.len() && (#[trigger] before.items@[j]).0@ == k;
            assert(j != i);
            if j < i {
                assert(after.items@[j].0@ == k);
            } else {
                assert(after.items@[j - 1].0@ == k);
            }
        }
    }
    assert forall|k: Seq<char>| after.has(k) implies #[trigger] after.at(k) == before.at(k) by {
        lemma_key_index(after.items@, k);
        lemma_key_index(before.items@, k);
        let j = key_index(after.items@, k);
        let jj = if j < i { j } else { j + 1 };
        assert(before.items@[jj] == after.items@[j]);
    }
    assert(files_view(after) =~= files_view(before).remove(k0));
}

} // verus!
