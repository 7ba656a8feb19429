//! The repack writer's bookkeeping: which segment file each payload goes
//! to, at which offset, and what the final index holds. The caller
//! performs the file writes; the decisions and the recorded ranges are
//! verified here, with the segment contents tracked in ghost state.
use vstd::prelude::*;
use crate::sheepfile::{Entry, MAX_DATA_FILE_SIZE_BYTES, index_to_bytes, spec_index_bytes};

verus! {

/// The bytes a reader obtains for an entry: the recorded range of the
/// recorded segment.
pub open spec fn spec_read_entry(segments: Seq<Seq<u8>>, e: Entry) -> Seq<u8> {
    segments[e.data_file_index as int].subrange(e.start_bytes as int,
        e.start_bytes + e.size_bytes)
}

/// The repack writer's state: the segment currently open, how many bytes
/// it holds, the index records so far, and — in ghost state — the bytes
/// of every segment and every payload as appended.
pub struct SheepfileWriter {
    pub current_data_index: u16,
    pub current_data_file_size: u64,
    pub entries: Vec<Entry>,
    pub segments: Ghost<Seq<Seq<u8>>>,
    pub appended: Ghost<Seq<Seq<u8>>>,
}

impl SheepfileWriter {
    /// Whether appending a payload of `len` bytes would overflow the open
    /// segment, so that a new one must be started first.
    pub open spec fn needs_new_segment(&self, len: int) -> bool {
        self.current_data_file_size + len > MAX_DATA_FILE_SIZE_BYTES
    }

    /// Whether every segment written so far is within the size cap.
    pub open spec fn capped(&self) -> bool {
        forall|i: int| 0 <= i < self.segments@.len()
            ==> (#[trigger] self.segments@[i]).len() <= MAX_DATA_FILE_SIZE_BYTES
    }

    /// The bookkeeping is coherent: one ghost segment per segment file,
    /// the open one as large as recorded; every index record points at a
    /// range of its segment holding exactly the payload appended for it;
    /// records of one segment tile it in order without overlap.
    pub open spec fn wf(&self) -> bool {
        &&& self.segments@.len() == self.current_data_index + 1
        &&& self.segments@.last().len() == self.current_data_file_size
        &&& self.current_data_file_size <= u32::MAX
        &&& self.entries@.len() == self.appended@.len()
        &&& forall|i: int| 0 <= i < self.entries@.len()
            ==> (#[trigger] self.entries@[i]).data_file_index <= self.current_data_index
        &&& forall|i: int| 0 <= i < self.entries@.len()
            ==> (#[trigger] self.entries@[i]).data_file_index == self.current_data_index
                ==> self.entries@[i].start_bytes + self.entries@[i].size_bytes
                    <= self.current_data_file_size
        &&& forall|i: int| 0 <= i < self.entries@.len()
            ==> (#[trigger] self.entries@[i]).start_bytes + self.entries@[i].size_bytes
                <= self.segments@[self.entries@[i].data_file_index as int].len()
        &&& forall|i: int| 0 <= i < self.entries@.len()
            ==> spec_read_entry(self.segments@, #[trigger] self.entries@[i])
                == self.appended@[i]
        &&& forall|i: int, j: int| 0 <= i < j < self.entries@.len()
            && (#[trigger] self.entries@[i]).data_file_index
                == (#[trigger] self.entries@[j]).data_file_index
            ==> self.entries@[i].start_bytes + self.entries@[i].size_bytes
                <= self.entries@[j].start_bytes
    }

    /// A fresh writer: one empty segment, no records.
    pub fn new() -> (r: SheepfileWriter)
        ensures
            r.wf(),
            r.capped(),
            r.current_data_index == 0,
            r.current_data_file_size == 0,
            r.entries@.len() == 0,
            r.segments@ == Seq::<Seq<u8>>::empty().push(Seq::<u8>::empty()),
            r.appended@.len() == 0,
    {
        SheepfileWriter {
            current_data_index: 0,
            current_data_file_size: 0,
            entries: Vec::new(),
            segments: Ghost(Seq::<Seq<u8>>::empty().push(Seq::<u8>::empty())),
            appended: Ghost(Seq::empty()),
        }
    }

    /// Records one payload: starts a new segment exactly when the open one
    /// cannot take the payload, appends at the end of the open segment,
    /// and returns the index record, which the caller uses to place the
    /// bytes. A payload within the cap keeps every segment within the cap.
    pub fn append_entry(&mut self, file_id: u32, name_hash: u64, data: &[u8]) -> (e: Entry)
        requires
            old(self).wf(),
            data@.len() <= u32::MAX,
            old(self).needs_new_segment(data@.len() as int)
                ==> old(self).current_data_index < u16::MAX,
        ensures
            final(self).wf(),
            ({
                let rolled = old(self).needs_new_segment(data@.len() as int);
                &&& e.file_id == file_id
                &&& e.name_hash == name_hash
                &&& e.size_bytes == data@.len()
                &&& e.data_file_index == final(self).current_data_index
                &&& final(self).current_data_index == if rolled {
                    old(self).current_data_index + 1
                } else {
                    old(self).current_data_index as int
                }
                &&& e.start_bytes == if rolled { 0 } else { old(self).current_data_file_size }
                &&& final(self).entries@ == old(self).entries@.push(e)
                &&& final(self).appended@ == old(self).appended@.push(data@)
                &&& final(self).current_data_file_size == e.start_bytes + data@.len()
                &&& final(self).segments@ == if rolled {
                    old(self).segments@.push(data@)
                } else {
                    old(self).segments@.update(old(self).segments@.len() - 1,
                        old(self).segments@.last() + data@)
                }
                &&& (old(self).capped() && data@.len() <= MAX_DATA_FILE_SIZE_BYTES
                    ==> final(self).capped())
            }),
    {
        let len64 = data.len() as u64;
        let ghost rolled = self.needs_new_segment(data@.len() as int);
        if self.current_data_file_size + len64 > MAX_DATA_FILE_SIZE_BYTES {
            self.current_data_index = self.current_data_index + 1;
            self.current_data_file_size = 0;
            proof {
                self.segments@ = self.segments@.push(Seq::empty());
            }
        }
        let entry = Entry {
            file_id,
            name_hash,
            data_file_index: self.current_data_index,
            start_bytes: self.current_data_file_size as u32,
            size_bytes: data.len() as u32,
        };
        let ghost old_entries = self.entries@;
        let ghost old_segments = self.segments@;
        self.entries.push(entry);
        proof {
            self.appended@ = self.appended@.push(data@);
            self.segments@ = self.segments@.update(self.segments@.len() - 1,
                self.segments@.last() + data@);
        }
        self.current_data_file_size = self.current_data_file_size + len64;
        proof {
            let segs = self.segments@;
            if rolled {
                assert(Seq::<u8>::empty() + data@ =~= data@);
                assert(segs =~= old(self).segments@.push(data@));
            }
            assert(segs.last() == old_segments.last() + data@);
            assert forall|i: int| 0 <= i < self.entries@.len()
                implies spec_read_entry(segs, #[trigger] self.entries@[i])
                    == self.appended@[i] by {
                let ent = self.entries@[i];
                if i < old_entries.len() {
                    assert(ent == old_entries[i]);
                    if ent.data_file_index as int == segs.len() - 1 {
                        assert((old_segments.last() + data@).subrange(ent.start_bytes as int,
                            ent.start_bytes + ent.size_bytes)
                            =~= old_segments.last().subrange(ent.start_bytes as int,
                                ent.start_bytes + ent.size_bytes));
                    }
                } else {
                    assert(ent == entry);
                    assert((old_segments.last() + data@).subrange(entry.start_bytes as int,
                        entry.start_bytes + entry.size_bytes) =~= data@);
                }
            }
        }
        entry
    }

    /// Renders the final index for the records written so far.
    pub fn finish(&self) -> (r: Vec<u8>)
        requires
            self.entries@.len() <= u32::MAX,
        ensures
            r@ == spec_index_bytes(self.entries@),
    {
        index_to_bytes(&self.entries)
    }
}

/// Any two records of the same segment occupy disjoint byte ranges: the
/// earlier one ends before the later one starts.
pub proof fn lemma_same_segment_disjoint(w: SheepfileWriter, i: int, j: int)
    requires
        w.wf(),
        0 <= i < w.entries@.len(),
        0 <= j < w.entries@.len(),
        i != j,
        w.entries@[i].data_file_index == w.entries@[j].data_file_index,
    ensures
        w.entries@[i].start_bytes + w.entries@[i].size_bytes <= w.entries@[j].start_bytes
            || w.entries@[j].start_bytes + w.entries@[j].size_bytes <= w.entries@[i].start_bytes,
{
}

/// Every record's payload reads back from its segment exactly as it was
/// appended.
pub proof fn lemma_writer_read_back(w: SheepfileWriter, i: int)
    requires
        w.wf(),
        0 <= i < w.entries@.len(),
    ensures
        spec_read_entry(w.segments@, w.entries@[i]) == w.appended@[i],
{
}

/// A payload of exactly the segment cap starts a new segment if and only
/// if the open segment is not empty.
pub proof fn lemma_cap_boundary(w: SheepfileWriter)
    ensures
        w.needs_new_segment(MAX_DATA_FILE_SIZE_BYTES as int)
            <==> w.current_data_file_size != 0,
{
}

} // verus!
