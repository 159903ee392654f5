//! The ingestion state tracker: per-file parse cursors keyed by path, and
//! the global monotonic document-identifier allocator. The tracker decides
//! what a parser may skip and where it resumes; persistence of the record
//! itself is the host's concern.

use vstd::prelude::*;

verus! {

/// The parse cursor of one ingested file: its size and modification time
/// at the last successful parse, the byte offset already consumed, and the
/// logical turn index reached inside the file.
#[derive(Clone, Copy, Debug, PartialEq, Eq, Structural)]
pub struct FileState {
    pub size: u64,
    pub mtime: i64,
    pub offset: u64,
    pub turn_id: u32,
}

impl FileState {
    /// The cursor never runs past the recorded file size.
    pub open spec fn wf(self) -> bool {
        self.offset <= self.size
    }
}

/// What the resume policy tells a parser to do with one file.
#[derive(Clone, Copy, Debug, PartialEq, Eq, Structural)]
pub enum ResumeAction {
    /// Size and modification time both match the stored cursor: the file
    /// has nothing new and is skipped entirely.
    Skip,
    /// Parse from this byte offset, with per-turn identifiers continuing
    /// from this turn index.
    Resume { offset: u64, turn_id: u32 },
}

/// The resume policy: an unknown file is parsed from the start; a file
/// whose current size and modification time both match the stored cursor
/// is skipped; any other change (growth, shrink, or a timestamp moved in
/// either direction) resumes from the stored offset — the tracker does not
/// guess at external rewrites.
pub fn resume_action(existing: Option<&FileState>, size: u64, mtime: i64) -> (r: ResumeAction)
    ensures
        existing is None ==> r == (ResumeAction::Resume { offset: 0, turn_id: 0 }),
        existing matches Some(st) ==> r == (if st.size == size && st.mtime == mtime {
            ResumeAction::Skip
        } else {
            ResumeAction::Resume { offset: st.offset, turn_id: st.turn_id }
        }),
{
    match existing {
        None => ResumeAction::Resume { offset: 0, turn_id: 0 },
        Some(st) => {
            if st.size == size && st.mtime == mtime {
                ResumeAction::Skip
            } else {
                ResumeAction::Resume { offset: st.offset, turn_id: st.turn_id }
            }
        },
    }
}

/// The path-keyed cursor map that a sequence of entries denotes; a later
/// entry for the same path wins.
pub open spec fn files_map(s: Seq<(String, FileState)>) -> Map<Seq<char>, FileState>
    decreases s.len(),
{
    if s.len() == 0 {
        Map::empty()
    } else {
        files_map(s.drop_last()).insert(s.last().0@, s.last().1)
    }
}

/// No two entries share a path.
pub open spec fn keys_unique(s: Seq<(String, FileState)>) -> bool {
    forall|i: int, j: int|
        0 <= i < j < s.len() ==> (#[trigger] s[i]).0@ != (#[trigger] s[j]).0@
}

proof fn lemma_files_map_absent(s: Seq<(String, FileState)>, k: Seq<char>)
    requires
        forall|i: int| 0 <= i < s.len() ==> (#[trigger] s[i]).0@ != k,
    ensures
        !files_map(s).contains_key(k),
    decreases s.len(),
{
    if s.len() > 0 {
        assert(s[s.len() - 1].0@ != k);
        lemma_files_map_absent(s.drop_last(), k);
    }
}

proof fn lemma_files_map_present(s: Seq<(String, FileState)>, i: int)
    requires
        keys_unique(s),
        0 <= i < s.len(),
    ensures
        files_map(s).contains_key(s[i].0@),
        files_map(s)[s[i].0@] == s[i].1,
    decreases s.len(),
{
    if i == s.len() - 1 {
    } else {
        lemma_files_map_present(s.drop_last(), i);
        assert(s[s.len() - 1].0@ != s[i].0@);
    }
}

proof fn lemma_files_map_remove(s: Seq<(String, FileState)>, i: int)
    requires
        keys_unique(s),
        0 <= i < s.len(),
    ensures
        files_map(s.remove(i)) =~= files_map(s).remove(s[i].0@),
    decreases s.len(),
{
    let k = s[i].0@;
    if i == s.len() - 1 {
        assert(s.remove(i) =~= s.drop_last());
        assert forall|j: int| 0 <= j < s.drop_last().len() implies
            (#[trigger] s.drop_last()[j]).0@ != k by {
            assert(s[j] == s.drop_last()[j]);
        }
        lemma_files_map_absent(s.drop_last(), k);
    } else {
        let t = s.drop_last();
        assert(s.remove(i).drop_last() =~= t.remove(i));
        assert(s.remove(i).last() == s.last());
        lemma_files_map_remove(t, i);
        assert(s.last().0@ != k);
        assert(files_map(s.remove(i))
            =~= files_map(t).remove(k).insert(s.last().0@, s.last().1));
    }
}

/// The process-wide persisted ingestion record: the path-keyed cursor map
/// and the next document identifier, monotonically increasing from 1 and
/// never reused.
#[derive(Debug)]
pub struct IngestState {
    /// The next identifier the allocator will hand out.
    pub next_doc_id: u64,
    /// The per-file cursors, one entry per path (see [`IngestState::inv`]).
    pub files: Vec<(String, FileState)>,
}

impl Default for IngestState {
    /// The state of a fresh archive: no cursors, identifiers from 1.
    fn default() -> (r: Self)
        ensures
            r.inv(),
            r.next_doc_id == 1,
            r.files_view() == Map::<Seq<char>, FileState>::empty(),
    {
        IngestState { next_doc_id: 1, files: Vec::new() }
    }
}

fn find_key(files: &Vec<(String, FileState)>, path: &String) -> (r: Option<usize>)
    ensures
        r matches Some(i) ==> i < files@.len() && files@[i as int].0@ == path@,
        r is None ==> forall|j: int|
            0 <= j < files@.len() ==> (#[trigger] files@[j]).0@ != path@,
{
    let mut i: usize = 0;
    while i < files.len()
        invariant
            i <= files@.len(),
            forall|j: int| 0 <= j < i ==> (#[trigger] files@[j]).0@ != path@,
        decreases files@.len() - i,
    {
        if files[i].0 == *path {
            return Some(i);
        }
        i = i + 1;
    }
    None
}

impl IngestState {
    /// The cursor map this state denotes.
    pub open spec fn files_view(&self) -> Map<Seq<char>, FileState> {
        files_map(self.files@)
    }

    /// The representation invariant: one entry per path.
    pub open spec fn inv(&self) -> bool {
        keys_unique(self.files@)
    }

    /// Hands out the current `next_doc_id` and advances the counter; no
    /// identifier is ever returned twice.
    pub fn alloc_doc_id(&mut self) -> (id: u64)
        requires
            old(self).inv(),
            old(self).next_doc_id < u64::MAX,
        ensures
            final(self).inv(),
            id == old(self).next_doc_id,
            final(self).next_doc_id == old(self).next_doc_id + 1,
            final(self).files_view() == old(self).files_view(),
    {
        let id = self.next_doc_id;
        self.next_doc_id = self.next_doc_id + 1;
        id
    }

    /// Looks up the stored cursor of one file path.
    pub fn get_file<'a>(&'a self, path: &String) -> (r: Option<&'a FileState>)
        requires
            self.inv(),
        ensures
            r matches Some(st) ==> self.files_view().contains_key(path@)
                && *st == self.files_view()[path@],
            r is None ==> !self.files_view().contains_key(path@),
    {
        match find_key(&self.files, path) {
            Some(i) => {
                proof {
                    lemma_files_map_present(self.files@, i as int);
                }
                Some(&self.files[i].1)
            },
            None => {
                proof {
                    lemma_files_map_absent(self.files@, path@);
                }
                None
            },
        }
    }

    /// Creates or overwrites the cursor of one file path, after a
    /// successful parse batch.
    pub fn record_file(&mut self, path: String, st: FileState)
        requires
            old(self).inv(),
        ensures
            final(self).inv(),
            final(self).next_doc_id == old(self).next_doc_id,
            final(self).files_view() == old(self).files_view().insert(path@, st),
    {
        let ghost s0 = self.files@;
        match find_key(&self.files, &path) {
            Some(i) => {
                proof {
                    lemma_files_map_remove(s0, i as int);
                    assert forall|a: int, b: int|
                        0 <= a < b < s0.remove(i as int).len() implies
                        (#[trigger] s0.remove(i as int)[a]).0@
                            != (#[trigger] s0.remove(i as int)[b]).0@ by {
                        s0.remove_ensures(i as int);
                    }
                    assert forall|a: int| 0 <= a < s0.remove(i as int).len() implies
                        (#[trigger] s0.remove(i as int)[a]).0@ != path@ by {
                        s0.remove_ensures(i as int);
                    }
                }
                self.files.remove(i);
                self.files.push((path, st));
                proof {
                    assert(self.files@.drop_last() =~= s0.remove(i as int));
                    assert(self.files_view()
                        =~= old(self).files_view().remove(s0[i as int].0@).insert(
                            self.files@.last().0@,
                            st,
                        ));
                    assert(self.files_view() =~= old(self).files_view().insert(
                        self.files@.last().0@,
                        st,
                    ));
                }
            },
            None => {
                self.files.push((path, st));
                proof {
                    assert(self.files@.drop_last() =~= s0);
                    assert forall|a: int, b: int| 0 <= a < b < self.files@.len() implies
                        (#[trigger] self.files@[a]).0@ != (#[trigger] self.files@[b]).0@ by {
                        if b == self.files@.len() - 1 {
                            assert(self.files@[a] == s0[a]);
                        } else {
                            assert(self.files@[a] == s0[a] && self.files@[b] == s0[b]);
                        }
                    }
                }
            },
        }
    }

    /// Rebuilds a state from persisted entries; a later entry for the same
    /// path wins, exactly as in the denoted map.
    pub fn from_entries(next_doc_id: u64, entries: Vec<(String, FileState)>) -> (r: IngestState)
        ensures
            r.inv(),
            r.next_doc_id == next_doc_id,
            r.files_view() == files_map(entries@),
    {
        let mut state = IngestState { next_doc_id, files: Vec::new() };
        let mut i: usize = 0;
        let n = entries.len();
        let mut rest = entries;
        proof {
            assert(files_map(rest@.take(0)) =~= Map::<Seq<char>, FileState>::empty());
        }
        let ghost all = rest@;
        while i < n
            invariant
                i <= n,
                n == all.len(),
                rest@ == all.skip(i as int),
                state.inv(),
                state.next_doc_id == next_doc_id,
                state.files_view() == files_map(all.take(i as int)),
            decreases n - i,
        {
            let (path, st) = rest.remove(0);
            proof {
                assert(all.take(i + 1).drop_last() =~= all.take(i as int));
                assert(all.take(i + 1).last() == all[i as int]);
                assert(all.skip(i as int)[0] == all[i as int]);
                assert(all.skip(i as int).remove(0) =~= all.skip(i + 1));
            }
            state.record_file(path, st);
            i = i + 1;
        }
        proof {
            assert(all.take(n as int) =~= all);
        }
        state
    }
}

} // verus!
