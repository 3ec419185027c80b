//! The per-decode table that shares repeated file names.
use vstd::prelude::*;

use crate::event::bytes_eq;

verus! {

/// No text occurs twice in the table.
pub open spec fn distinct(files: Seq<Seq<u8>>) -> bool {
    forall|a: int, b: int| 0 <= a < files.len() && 0 <= b < files.len() && a != b ==> files[a] != files[b]
}

/// `later` keeps every entry of `earlier` at its place.
pub open spec fn extends(earlier: Seq<Seq<u8>>, later: Seq<Seq<u8>>) -> bool {
    &&& earlier.len() <= later.len()
    &&& forall|k: int| 0 <= k < earlier.len() ==> earlier[k] == later[k]
}

/// Interning `t` into `files`: the table afterwards and the handle of `t`.
/// Text seen before keeps its handle; new text is appended.
pub open spec fn intern_spec(files: Seq<Seq<u8>>, t: Seq<u8>) -> (Seq<Seq<u8>>, usize) {
    if files.contains(t) {
        (files, (choose|k: int| 0 <= k < files.len() && files[k] == t) as usize)
    } else {
        (files.push(t), files.len() as usize)
    }
}

/// What interning makes of a table without repeats: still none, the text
/// stands at the handle, and the old table is kept as a prefix.
pub proof fn lemma_intern_spec(files: Seq<Seq<u8>>, t: Seq<u8>)
    requires
        distinct(files),
        files.len() < usize::MAX,
    ensures
        distinct(intern_spec(files, t).0),
        intern_spec(files, t).1 < intern_spec(files, t).0.len(),
        intern_spec(files, t).0[intern_spec(files, t).1 as int] == t,
        files.len() <= intern_spec(files, t).0.len(),
        extends(files, intern_spec(files, t).0),
{
    if files.contains(t) {
        let k = choose|k: int| 0 <= k < files.len() && files[k] == t;
        assert(0 <= k < files.len() && files[k] == t);
    }
}

/// Interning shares equal text and separates different text: once `t` has
/// been interned, every later table of the same decode (one that extends the
/// earlier and has no repeats, as each step of the decoder guarantees) gives
/// `t` the same handle again, and gives any other text a different handle.
/// A new decode starts from an empty table of its own.
pub proof fn lemma_intern_shares(files: Seq<Seq<u8>>, t: Seq<u8>, later: Seq<Seq<u8>>, u: Seq<u8>)
    requires
        distinct(files),
        distinct(later),
        later.len() < usize::MAX,
        extends(intern_spec(files, t).0, later),
    ensures
        intern_spec(later, t).1 == intern_spec(files, t).1,
        intern_spec(later, t).0 == later,
        u != t ==> intern_spec(later, u).1 != intern_spec(files, t).1,
{
    lemma_intern_spec(files, t);
    let (f1, h) = intern_spec(files, t);
    assert(later[h as int] == f1[h as int]);
    assert(later.contains(t));
    let k = choose|k: int| 0 <= k < later.len() && later[k] == t;
    assert(later[k] == t);
    lemma_intern_spec(later, u);
    if u != t && later.contains(u) {
        let m = choose|m: int| 0 <= m < later.len() && later[m] == u;
        assert(later[m] == u);
    }
}

/// Every distinct file name met in one decode, each stored once; a handle is
/// an index into this table.
#[derive(Debug)]
pub struct FileTable {
    files: Vec<Vec<u8>>,
}

impl View for FileTable {
    type V = Seq<Seq<u8>>;

    closed spec fn view(&self) -> Seq<Seq<u8>> {
        self.files@.map_values(|f: Vec<u8>| f@)
    }
}

impl FileTable {
    pub open spec fn wf(&self) -> bool {
        distinct(self@)
    }

    pub fn new() -> (r: FileTable)
        ensures
            r.wf(),
            r@ == Seq::<Seq<u8>>::empty(),
    {
        let r = FileTable { files: Vec::new() };
        assert(r@ =~= Seq::<Seq<u8>>::empty());
        r
    }

    pub fn len(&self) -> (r: usize)
        ensures
            r == self@.len(),
    {
        self.files.len()
    }

    /// The text behind a handle.
    pub fn get(&self, h: usize) -> (r: &Vec<u8>)
        requires
            h < self@.len(),
        ensures
            r@ == self@[h as int],
    {
        &self.files[h]
    }

    /// Returns the handle of `t`, adding it to the table if it is new.
    pub fn intern(&mut self, t: &Vec<u8>) -> (r: usize)
        requires
            old(self).wf(),
        ensures
            final(self).wf(),
            extends(old(self)@, final(self)@),
            (final(self)@, r) == intern_spec(old(self)@, t@),
            r < final(self)@.len(),
    {
        let mut k: usize = 0;
        while k < self.files.len()
            invariant
                self.wf(),
                self@ == old(self)@,
                0 <= k <= self@.len(),
                self@.len() == self.files@.len(),
                forall|j: int| 0 <= j < k ==> self@[j] != t@,
            decreases self.files.len() - k,
        {
            if bytes_eq(&self.files[k], t) {
                assert(self@[k as int] == t@);
                assert(self@.contains(t@));
                return k;
            }
            k = k + 1;
        }
        assert(!self@.contains(t@));
        let ghost before = self@;
        self.files.push(t.clone());
        assert(self@ =~= before.push(t@));
        k
    }
}

} // verus!
