//! The file operations a writer asks for, their meaning over a model of the
//! disk, and an in-memory disk that carries them out.
use vstd::prelude::*;

verus! {

/// A place on disk that the writer names: the live file, or backup `i`.
#[derive(Clone, Copy, Debug, PartialEq, Eq, Structural)]
pub enum Slot {
    Live,
    Backup(usize),
}

/// One step of filesystem work.
#[derive(Debug)]
pub enum FileOp {
    /// Push the live file's buffered bytes to disk.
    Flush,
    /// Rename `from` to `to` if `from` exists; do nothing otherwise.
    RenameIfExists { from: Slot, to: Slot },
    /// Rename `from` to `to`; fails if `from` is missing.
    Rename { from: Slot, to: Slot },
    /// Open the live file for appending, creating it empty if it is absent.
    OpenLive,
    /// Append bytes to the live file.
    Append(Vec<u8>),
}

/// The mathematical content of a [`FileOp`].
pub enum OpModel {
    Flush,
    RenameIfExists { from: Slot, to: Slot },
    Rename { from: Slot, to: Slot },
    OpenLive,
    Append(Seq<u8>),
}

impl View for FileOp {
    type V = OpModel;

    open spec fn view(&self) -> OpModel {
        match self {
            FileOp::Flush => OpModel::Flush,
            FileOp::RenameIfExists { from, to } => OpModel::RenameIfExists { from: *from, to: *to },
            FileOp::Rename { from, to } => OpModel::Rename { from: *from, to: *to },
            FileOp::OpenLive => OpModel::OpenLive,
            FileOp::Append(b) => OpModel::Append(b@),
        }
    }
}

/// The contents of a list of operations.
pub open spec fn ops_model(ops: Seq<FileOp>) -> Seq<OpModel> {
    ops.map_values(|o: FileOp| o@)
}

/// What is on disk: the files that exist, by slot.
pub type Disk = Map<Slot, Seq<u8>>;

/// `d` after the file at `from` is renamed to `to` (replacing what was there).
pub open spec fn moved(d: Disk, from: Slot, to: Slot) -> Disk
    recommends
        d.contains_key(from),
{
    d.remove(from).insert(to, d[from])
}

/// The disk after one operation, or `None` where the operation fails.
pub open spec fn apply_op(d: Disk, op: OpModel) -> Option<Disk> {
    match op {
        OpModel::Flush => Some(d),
        OpModel::RenameIfExists { from, to } => if d.contains_key(from) {
            Some(moved(d, from, to))
        } else {
            Some(d)
        },
        OpModel::Rename { from, to } => if d.contains_key(from) {
            Some(moved(d, from, to))
        } else {
            None
        },
        OpModel::OpenLive => if d.contains_key(Slot::Live) {
            Some(d)
        } else {
            Some(d.insert(Slot::Live, Seq::empty()))
        },
        OpModel::Append(b) => if d.contains_key(Slot::Live) {
            Some(d.insert(Slot::Live, d[Slot::Live] + b))
        } else {
            None
        },
    }
}

/// The disk after running `ops` in order, or `None` if one of them fails.
pub open spec fn run_ops(d: Disk, ops: Seq<OpModel>) -> Option<Disk>
    decreases ops.len(),
{
    if ops.len() == 0 {
        Some(d)
    } else {
        match apply_op(d, ops[0]) {
            Some(next) => run_ops(next, ops.skip(1)),
            None => None,
        }
    }
}

/// Running a single operation is applying it.
pub proof fn lemma_run_single(d: Disk, op: OpModel)
    ensures
        run_ops(d, seq![op]) == apply_op(d, op),
{
    assert(seq![op].skip(1) =~= Seq::<OpModel>::empty());
    match apply_op(d, op) {
        Some(next) => assert(run_ops(next, seq![op].skip(1)) == Some(next)),
        None => {},
    }
}

/// What the live file holds on `d`, an absent one counting as empty.
pub open spec fn live_or_empty(d: Disk) -> Seq<u8> {
    if d.contains_key(Slot::Live) {
        d[Slot::Live]
    } else {
        Seq::empty()
    }
}

/// Running `a + b` is running `a`, then `b` on what it left.
pub proof fn lemma_run_concat(d: Disk, a: Seq<OpModel>, b: Seq<OpModel>)
    ensures
        run_ops(d, a + b) == match run_ops(d, a) {
            Some(mid) => run_ops(mid, b),
            None => None,
        },
    decreases a.len(),
{
    if a.len() > 0 {
        assert((a + b).skip(1) =~= a.skip(1) + b);
        assert((a + b)[0] == a[0]);
        match apply_op(d, a[0]) {
            Some(next) => lemma_run_concat(next, a.skip(1), b),
            None => {},
        }
    } else {
        assert(a + b =~= b);
    }
}

/// Why an operation on the in-memory disk failed.
#[derive(Clone, Copy, Debug, PartialEq, Eq, Structural)]
pub enum DiskError {
    /// The file to rename or append to does not exist.
    NotFound,
}

/// The contents that a log entry records.
pub open spec fn stored(contents: Option<Vec<u8>>) -> Option<Seq<u8>> {
    match contents {
        Some(b) => Some(b@),
        None => None,
    }
}

/// What the entries `log` leave on disk at `slot`: the latest entry for the
/// slot decides, an entry of `None` being a removal.
pub open spec fn lookup(log: Seq<(Slot, Option<Vec<u8>>)>, slot: Slot) -> Option<Seq<u8>>
    decreases log.len(),
{
    if log.len() == 0 {
        None
    } else if log.last().0 == slot {
        stored(log.last().1)
    } else {
        lookup(log.drop_last(), slot)
    }
}

/// A disk held in memory, as a log of writes and removals.
pub struct MemDisk {
    log: Vec<(Slot, Option<Vec<u8>>)>,
}

impl View for MemDisk {
    type V = Disk;

    closed spec fn view(&self) -> Disk {
        Map::new(|s: Slot| lookup(self.log@, s) is Some, |s: Slot| lookup(self.log@, s)->Some_0)
    }
}

impl MemDisk {
    /// An empty disk.
    pub fn new() -> (r: MemDisk)
        ensures
            r@ == Map::<Slot, Seq<u8>>::empty(),
    {
        let r = MemDisk { log: Vec::new() };
        assert(r@ =~= Map::<Slot, Seq<u8>>::empty());
        r
    }

    /// The contents of the file at `slot`, if it exists.
    pub fn read(&self, slot: Slot) -> (r: Option<Vec<u8>>)
        ensures
            r is Some <==> self@.contains_key(slot),
            r is Some ==> r->Some_0@ == self@[slot],
    {
        let mut i: usize = self.log.len();
        assert(self.log@.take(i as int) =~= self.log@);
        while i > 0
            invariant
                i <= self.log.len(),
                lookup(self.log@, slot) == lookup(self.log@.take(i as int), slot),
            decreases i,
        {
            let entry = &self.log[i - 1];
            assert(self.log@.take(i as int).drop_last() =~= self.log@.take(i - 1));
            if entry.0 == slot {
                return match &entry.1 {
                    Some(b) => Some(b.clone()),
                    None => None,
                };
            }
            i = i - 1;
        }
        assert(self.log@.take(0) =~= Seq::<(Slot, Option<Vec<u8>>)>::empty());
        None
    }

    /// Whether a file exists at `slot`.
    pub fn contains(&self, slot: Slot) -> (r: bool)
        ensures
            r == self@.contains_key(slot),
    {
        self.read(slot).is_some()
    }

    fn put(&mut self, slot: Slot, contents: Option<Vec<u8>>)
        ensures
            final(self)@ == match stored(contents) {
                Some(b) => old(self)@.insert(slot, b),
                None => old(self)@.remove(slot),
            },
    {
        let ghost entry = stored(contents);
        self.log.push((slot, contents));
        proof {
            assert forall|s: Slot| lookup(self.log@, s) == if s == slot {
                entry
            } else {
                lookup(old(self).log@, s)
            } by {
                assert(self.log@.drop_last() =~= old(self).log@);
            }
            match entry {
                Some(b) => assert(self@ =~= old(self)@.insert(slot, b)),
                None => assert(self@ =~= old(self)@.remove(slot)),
            }
        }
    }

    /// Carries out one operation, with the meaning that [`apply_op`] gives it.
    pub fn perform(&mut self, op: &FileOp) -> (r: Result<(), DiskError>)
        ensures
            match apply_op(old(self)@, op@) {
                Some(d) => r is Ok && final(self)@ == d,
                None => r is Err && final(self)@ == old(self)@,
            },
    {
        match op {
            FileOp::Flush => Ok(()),
            FileOp::RenameIfExists { from, to } => {
                match self.read(*from) {
                    Some(b) => {
                        self.put(*from, None);
                        self.put(*to, Some(b));
                    },
                    None => {},
                }
                Ok(())
            },
            FileOp::Rename { from, to } => {
                match self.read(*from) {
                    Some(b) => {
                        self.put(*from, None);
                        self.put(*to, Some(b));
                        Ok(())
                    },
                    None => Err(DiskError::NotFound),
                }
            },
            FileOp::OpenLive => {
                if !self.contains(Slot::Live) {
                    self.put(Slot::Live, Some(Vec::new()));
                }
                Ok(())
            },
            FileOp::Append(bytes) => {
                match self.read(Slot::Live) {
                    Some(mut b) => {
                        let mut extra = bytes.clone();
                        b.append(&mut extra);
                        self.put(Slot::Live, Some(b));
                        Ok(())
                    },
                    None => Err(DiskError::NotFound),
                }
            },
        }
    }
}

} // verus!
