//! The rotating writer: when to rotate, what a rotation does, and the size
//! bookkeeping around each write.
use vstd::prelude::*;
use crate::disk::{
    apply_op, lemma_run_concat, lemma_run_single, live_or_empty, ops_model, run_ops, stored, Disk,
    DiskError, FileOp, MemDisk, OpModel, Slot,
};
use crate::naming::{backup_name, backup_path};

verus! {

/// Why a writer could not be configured.
#[derive(Clone, Copy, Debug, PartialEq, Eq, Structural)]
pub enum ConfigError {
    /// The header is longer than the size limit of a file.
    HeaderTooLarge,
}

/// Why a write on an in-memory disk failed.
#[derive(Clone, Copy, Debug, PartialEq, Eq, Structural)]
pub enum RotateError {
    /// The configuration was refused.
    InvalidConfig,
    /// A file operation failed.
    Disk(DiskError),
}

/// The mathematical state of a writer.
pub struct WriterState {
    pub base: Seq<char>,
    pub max_bytes: nat,
    pub backup_count: nat,
    /// Bytes in the live file since it was opened.
    pub current_size: nat,
    pub header: Option<Seq<u8>>,
}

/// The bytes a header puts at the top of a live file.
pub open spec fn header_bytes(h: Option<Seq<u8>>) -> Seq<u8> {
    match h {
        Some(b) => b,
        None => Seq::empty(),
    }
}

/// The operations that write the header, if there is one.
pub open spec fn header_ops(h: Option<Seq<u8>>) -> Seq<OpModel> {
    match h {
        Some(b) => seq![OpModel::Append(b)],
        None => Seq::empty(),
    }
}

/// The renames that move each backup up one slot, within the first `n`
/// slots, highest first: `n-2` to `n-1`, then `n-3` to `n-2`, down to `0`
/// to `1`. A missing backup is skipped.
pub open spec fn shift_ops(n: nat) -> Seq<OpModel>
    decreases n,
{
    if n <= 1 {
        Seq::empty()
    } else {
        seq![OpModel::RenameIfExists {
            from: Slot::Backup((n - 2) as usize),
            to: Slot::Backup((n - 1) as usize),
        }] + shift_ops((n - 1) as nat)
    }
}

/// A rotation: flush, shift the backups, retire the live file into slot 0,
/// start a fresh live file and write the header into it.
pub open spec fn rotation_ops(n: nat, h: Option<Seq<u8>>) -> Seq<OpModel> {
    seq![OpModel::Flush] + shift_ops(n) + seq![
        OpModel::Rename { from: Slot::Live, to: Slot::Backup(0) },
        OpModel::OpenLive,
    ] + header_ops(h)
}

/// Opening: the live file is opened (created if absent) and the header
/// appended to it.
pub open spec fn open_ops(h: Option<Seq<u8>>) -> Seq<OpModel> {
    seq![OpModel::OpenLive] + header_ops(h)
}

/// Whether writing `len` more bytes would carry the live file past the limit.
pub open spec fn crosses(w: WriterState, len: nat) -> bool {
    w.current_size + len > w.max_bytes
}

/// The operations of one write: at most one rotation, then one append.
pub open spec fn emit_ops(w: WriterState, bytes: Seq<u8>) -> Seq<OpModel> {
    (if crosses(w, bytes.len()) {
        rotation_ops(w.backup_count, w.header)
    } else {
        Seq::empty()
    }) + seq![OpModel::Append(bytes)]
}

/// `n`, held to what a `u64` can count.
pub open spec fn capped(n: nat) -> nat {
    if n > u64::MAX {
        u64::MAX as nat
    } else {
        n
    }
}

/// The writer after `w` with its size counter set to `size`.
pub open spec fn with_size(w: WriterState, size: nat) -> WriterState {
    WriterState { current_size: size, ..w }
}

/// The size counter after a successful write of `len` bytes.
pub open spec fn size_after(w: WriterState, len: nat) -> nat {
    if crosses(w, len) {
        capped(len)
    } else {
        capped(w.current_size + len)
    }
}

/// The outcome of a successful write of `bytes` from `w` on disk `d`: the
/// writer and the disk after it, or `None` where a file operation fails.
pub open spec fn emit_step(w: WriterState, d: Disk, bytes: Seq<u8>) -> Option<(WriterState, Disk)> {
    match run_ops(d, emit_ops(w, bytes)) {
        Some(d2) => Some((with_size(w, size_after(w, bytes.len())), d2)),
        None => None,
    }
}

/// Opening never fails: it puts the header after whatever the live file held,
/// an absent live file counting as empty.
pub proof fn law_open_appends_header(d: Disk, h: Option<Seq<u8>>)
    ensures
        run_ops(d, open_ops(h)) == Some(d.insert(Slot::Live, live_or_empty(d) + header_bytes(h))),
{
    let d1 = d.insert(Slot::Live, live_or_empty(d));
    assert(apply_op(d, OpModel::OpenLive) == Some(d1)) by {
        if d.contains_key(Slot::Live) {
            assert(d1 =~= d);
        }
    }
    lemma_run_concat(d, seq![OpModel::OpenLive], header_ops(h));
    lemma_run_single(d, OpModel::OpenLive);
    match h {
        Some(b) => {
            lemma_run_single(d1, OpModel::Append(b));
            assert(d1.insert(Slot::Live, d1[Slot::Live] + b) =~= d.insert(
                Slot::Live,
                live_or_empty(d) + header_bytes(h),
            ));
        },
        None => {
            assert(live_or_empty(d) + header_bytes(h) =~= live_or_empty(d));
        },
    }
}

/// What one write asks of the disk.
pub struct EmitPlan {
    /// The rotation to run first; empty where none is due.
    pub rotation: Vec<FileOp>,
    /// The append of the bytes themselves.
    pub append: FileOp,
}

/// A writer that keeps its live file under a size limit by rotating it into
/// a chain of numbered backups.
pub struct RotatingFileHandler {
    base_path: String,
    max_bytes: u64,
    backup_count: usize,
    current_size: u64,
    header: Option<Vec<u8>>,
}

impl View for RotatingFileHandler {
    type V = WriterState;

    closed spec fn view(&self) -> WriterState {
        WriterState {
            base: self.base_path@,
            max_bytes: self.max_bytes as nat,
            backup_count: self.backup_count as nat,
            current_size: self.current_size as nat,
            header: stored(self.header),
        }
    }
}

impl RotatingFileHandler {
    /// The well-formedness of a writer: a header fits in a file.
    pub closed spec fn wf(&self) -> bool {
        header_bytes(stored(self.header)).len() <= self.max_bytes
    }

    /// A writer for the live file at `base_path`, before it is opened. Fails
    /// when the header is longer than `max_bytes`; the check comes before any
    /// file is touched.
    pub fn new(base_path: &str, max_bytes: u64, backup_count: usize, header: Option<Vec<u8>>) -> (r:
        Result<RotatingFileHandler, ConfigError>)
        ensures
            r is Err <==> header_bytes(stored(header)).len() > max_bytes,
            r is Err ==> r == Err::<RotatingFileHandler, ConfigError>(ConfigError::HeaderTooLarge),
            r matches Ok(w) ==> w.wf() && w@ == (WriterState {
                base: base_path@,
                max_bytes: max_bytes as nat,
                backup_count: backup_count as nat,
                current_size: 0,
                header: stored(header),
            }),
    {
        match &header {
            Some(h) => {
                if h.len() as u64 > max_bytes {
                    return Err(ConfigError::HeaderTooLarge);
                }
            },
            None => {},
        }
        Ok(RotatingFileHandler {
            base_path: String::from_str(base_path),
            max_bytes,
            backup_count,
            current_size: 0,
            header,
        })
    }

    fn push_header(&self, ops: &mut Vec<FileOp>)
        ensures
            ops_model(final(ops)@) == ops_model(old(ops)@) + header_ops(self@.header),
    {
        let ghost before = ops_model(ops@);
        match &self.header {
            Some(h) => {
                ops.push(FileOp::Append(h.clone()));
            },
            None => {},
        }
        assert(ops_model(ops@) =~= before + header_ops(self@.header));
    }

    /// The operations that open the live file and write the header.
    pub fn open_ops(&self) -> (ops: Vec<FileOp>)
        ensures
            ops_model(ops@) == open_ops(self@.header),
    {
        let mut ops: Vec<FileOp> = Vec::new();
        ops.push(FileOp::OpenLive);
        self.push_header(&mut ops);
        assert(ops_model(ops@) =~= open_ops(self@.header));
        ops
    }

    /// Records the length of the live file once it is open.
    pub fn opened(&mut self, on_disk_len: u64)
        ensures
            final(self)@ == with_size(old(self)@, on_disk_len as nat),
            final(self).wf() == old(self).wf(),
    {
        self.current_size = on_disk_len;
    }

    /// Whether writing `len` more bytes calls for a rotation first.
    pub fn must_rotate(&self, len: usize) -> (r: bool)
        ensures
            r == crosses(self@, len as nat),
    {
        let len = len as u64;
        self.current_size > self.max_bytes || len > self.max_bytes - self.current_size
    }

    /// The operations of one rotation.
    fn rotation_plan(&self) -> (ops: Vec<FileOp>)
        ensures
            ops_model(ops@) == rotation_ops(self@.backup_count, self@.header),
    {
        let mut ops: Vec<FileOp> = Vec::new();
        ops.push(FileOp::Flush);
        let n = self.backup_count;
        let mut i: usize = if n > 0 { n - 1 } else { 0 };
        assert(shift_ops(1) =~= Seq::<OpModel>::empty());
        while i >= 1
            invariant
                i < n || i == 0,
                ops_model(ops@) + shift_ops((i + 1) as nat) == seq![OpModel::Flush] + shift_ops(n as nat),
            decreases i,
        {
            let ghost before = ops_model(ops@);
            ops.push(FileOp::RenameIfExists { from: Slot::Backup(i - 1), to: Slot::Backup(i) });
            assert(ops_model(ops@) =~= before.push(OpModel::RenameIfExists {
                from: Slot::Backup((i - 1) as usize),
                to: Slot::Backup(i),
            }));
            assert(ops_model(ops@) + shift_ops(i as nat) =~= before + shift_ops((i + 1) as nat));
            i = i - 1;
        }
        assert(ops_model(ops@) =~= seq![OpModel::Flush] + shift_ops(n as nat));
        let ghost before = ops_model(ops@);
        ops.push(FileOp::Rename { from: Slot::Live, to: Slot::Backup(0) });
        ops.push(FileOp::OpenLive);
        assert(ops_model(ops@) =~= before + seq![
            OpModel::Rename { from: Slot::Live, to: Slot::Backup(0) },
            OpModel::OpenLive,
        ]);
        self.push_header(&mut ops);
        ops
    }

    /// What writing `bytes` asks of the disk: a rotation first when they
    /// would carry the live file past `max_bytes`, and then one append.
    pub fn emit(&self, bytes: &[u8]) -> (plan: EmitPlan)
        ensures
            ops_model(plan.rotation@) + seq![plan.append@] == emit_ops(self@, bytes@),
            plan.rotation@.len() > 0 <==> crosses(self@, bytes@.len()),
    {
        let rotation = if self.must_rotate(bytes.len()) {
            self.rotation_plan()
        } else {
            Vec::new()
        };
        let plan = EmitPlan { rotation, append: FileOp::Append(slice_to_vec(bytes)) };
        assert(ops_model(plan.rotation@) + seq![plan.append@] =~= emit_ops(self@, bytes@));
        plan
    }

    /// Records that a rotation has completed: the fresh live file counts as
    /// empty, its header included.
    pub fn rotated(&mut self)
        ensures
            final(self)@ == with_size(old(self)@, 0),
            final(self).wf() == old(self).wf(),
    {
        self.current_size = 0;
    }

    /// Records that `len` bytes were appended to the live file.
    pub fn appended(&mut self, len: usize)
        ensures
            final(self)@ == with_size(old(self)@, capped(old(self)@.current_size + len as nat)),
            final(self).wf() == old(self).wf(),
    {
        self.current_size = self.current_size.saturating_add(len as u64);
    }

    /// Opens a writer on an in-memory disk: checks the header, opens the live
    /// file (creating it if absent), writes the header, and takes the live
    /// file's length as the size counter.
    pub fn open_on(
        disk: &mut MemDisk,
        base_path: &str,
        max_bytes: u64,
        backup_count: usize,
        header: Option<Vec<u8>>,
    ) -> (r: Result<RotatingFileHandler, RotateError>)
        ensures
            header_bytes(stored(header)).len() > max_bytes ==> r == Err::<
                RotatingFileHandler,
                RotateError,
            >(RotateError::InvalidConfig) && final(disk)@ == old(disk)@,
            header_bytes(stored(header)).len() <= max_bytes ==> (r matches Ok(w) && w.wf()
                && final(disk)@ == old(disk)@.insert(
                Slot::Live,
                live_or_empty(old(disk)@) + header_bytes(stored(header)),
            ) && w@ == (WriterState {
                base: base_path@,
                max_bytes: max_bytes as nat,
                backup_count: backup_count as nat,
                current_size: final(disk)@[Slot::Live].len(),
                header: stored(header),
            })),
    {
        let mut w = match RotatingFileHandler::new(base_path, max_bytes, backup_count, header) {
            Ok(w) => w,
            Err(_) => return Err(RotateError::InvalidConfig),
        };
        let ops = w.open_ops();
        proof {
            law_open_appends_header(disk@, w@.header);
        }
        match run_on(disk, &ops) {
            Ok(()) => {},
            Err(e) => return Err(RotateError::Disk(e)),
        }
        match disk.read(Slot::Live) {
            Some(live) => {
                w.opened(live.len() as u64);
                Ok(w)
            },
            None => Err(RotateError::Disk(DiskError::NotFound)),
        }
    }

    /// Writes `bytes` through an in-memory disk: runs the plan of
    /// [`RotatingFileHandler::emit`] and records its outcome. A failed
    /// rotation leaves the size counter as it was; a failed append after a
    /// rotation leaves it at zero.
    pub fn emit_on(&mut self, disk: &mut MemDisk, bytes: &[u8]) -> (r: Result<(), RotateError>)
        ensures
            final(self).wf() == old(self).wf(),
            match emit_step(old(self)@, old(disk)@, bytes@) {
                Some((w, d)) => r is Ok && final(self)@ == w && final(disk)@ == d,
                None => r matches Err(RotateError::Disk(_)) && (final(self)@ == old(self)@ || (crosses(
                    old(self)@,
                    bytes@.len(),
                ) && final(self)@ == with_size(old(self)@, 0))),
            },
    {
        let plan = self.emit(bytes);
        proof {
            lemma_run_concat(disk@, ops_model(plan.rotation@), seq![plan.append@]);
        }
        match run_on(disk, &plan.rotation) {
            Ok(()) => {},
            Err(e) => return Err(RotateError::Disk(e)),
        }
        if plan.rotation.len() > 0 {
            self.rotated();
        }
        let ghost mid = disk@;
        match disk.perform(&plan.append) {
            Ok(()) => {},
            Err(e) => return Err(RotateError::Disk(e)),
        }
        proof {
            lemma_run_single(mid, plan.append@);
        }
        self.appended(bytes.len());
        Ok(())
    }

    /// The byte-sink form of [`RotatingFileHandler::emit_on`]: the same
    /// write, reporting the number of bytes taken.
    pub fn write_on(&mut self, disk: &mut MemDisk, buf: &[u8]) -> (r: Result<usize, RotateError>)
        ensures
            final(self).wf() == old(self).wf(),
            match emit_step(old(self)@, old(disk)@, buf@) {
                Some((w, d)) => r == Ok::<usize, RotateError>(buf@.len() as usize) && final(self)@ == w
                    && final(disk)@ == d,
                None => r matches Err(RotateError::Disk(_)) && (final(self)@ == old(self)@ || (crosses(
                    old(self)@,
                    buf@.len(),
                ) && final(self)@ == with_size(old(self)@, 0))),
            },
    {
        match self.emit_on(disk, buf) {
            Ok(()) => Ok(buf.len()),
            Err(e) => Err(e),
        }
    }

    /// The path of a slot: the base path for the live file, `{base}.{i}` for
    /// backup `i`.
    pub fn path_of(&self, slot: Slot) -> (r: String)
        ensures
            r@ == match slot {
                Slot::Live => self@.base,
                Slot::Backup(i) => backup_name(self@.base, i as nat),
            },
    {
        match slot {
            Slot::Live => self.base_path.clone(),
            Slot::Backup(i) => backup_path(self.base_path.as_str(), i),
        }
    }
}

/// Runs `ops` on an in-memory disk in order, stopping at the first failure.
fn run_on(disk: &mut MemDisk, ops: &Vec<FileOp>) -> (r: Result<(), DiskError>)
    ensures
        match run_ops(old(disk)@, ops_model(ops@)) {
            Some(d) => r is Ok && final(disk)@ == d,
            None => r is Err,
        },
{
    let ghost all = ops_model(ops@);
    let mut k: usize = 0;
    assert(all.skip(0) =~= all);
    while k < ops.len()
        invariant
            k <= ops@.len(),
            all == ops_model(ops@),
            run_ops(old(disk)@, all) == run_ops(disk@, all.skip(k as int)),
        decreases ops@.len() - k,
    {
        assert(all.skip(k as int)[0] == ops@[k as int]@);
        assert(all.skip(k as int).skip(1) =~= all.skip(k + 1));
        match disk.perform(&ops[k]) {
            Ok(()) => {},
            Err(e) => return Err(e),
        }
        k = k + 1;
    }
    assert(all.skip(k as int) =~= Seq::<OpModel>::empty());
    Ok(())
}

fn slice_to_vec(bytes: &[u8]) -> (r: Vec<u8>)
    ensures
        r@ == bytes@,
{
    let mut r: Vec<u8> = Vec::new();
    let mut i: usize = 0;
    while i < bytes.len()
        invariant
            i <= bytes@.len(),
            r@ == bytes@.take(i as int),
        decreases bytes@.len() - i,
    {
        r.push(bytes[i]);
        assert(bytes@.take(i + 1) =~= bytes@.take(i as int).push(bytes@[i as int]));
        i = i + 1;
    }
    assert(bytes@.take(i as int) =~= bytes@);
    r
}

} // verus!
