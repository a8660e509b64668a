//! What rotation does to the files on disk, proved over the disk model.
use vstd::prelude::*;
use crate::disk::{apply_op, lemma_run_concat, lemma_run_single, moved, run_ops, Disk, OpModel, Slot};
use crate::handler::{
    capped, crosses, emit_ops, emit_step, header_bytes, header_ops, law_open_appends_header,
    open_ops, rotation_ops, shift_ops, with_size, WriterState,
};

verus! {

/// Whether the backup renames within the first `n` slots leave `s` alone.
pub open spec fn outside_shift(s: Slot, n: nat) -> bool {
    match s {
        Slot::Live => true,
        Slot::Backup(i) => i >= n,
    }
}

/// The disk after the live file of `ds` is retired into slot 0 and a fresh
/// live file holds only the header.
pub open spec fn restarted(ds: Disk, h: Option<Seq<u8>>) -> Disk {
    moved(ds, Slot::Live, Slot::Backup(0)).insert(Slot::Live, header_bytes(h))
}

/// Shifting the backups never fails, and touches neither the live file nor
/// any slot from `n` up.
proof fn lemma_shift_keeps(d: Disk, n: nat)
    requires
        n <= usize::MAX,
    ensures
        run_ops(d, shift_ops(n)) is Some,
        forall|s: Slot| #[trigger]
            outside_shift(s, n) ==> (run_ops(d, shift_ops(n))->Some_0.contains_key(s) == d.contains_key(s)
                && (d.contains_key(s) ==> run_ops(d, shift_ops(n))->Some_0[s] == d[s])),
    decreases n,
{
    if n > 1 {
        let op = OpModel::RenameIfExists {
            from: Slot::Backup((n - 2) as usize),
            to: Slot::Backup((n - 1) as usize),
        };
        lemma_run_concat(d, seq![op], shift_ops((n - 1) as nat));
        lemma_run_single(d, op);
        let d1 = apply_op(d, op)->Some_0;
        lemma_shift_keeps(d1, (n - 1) as nat);
        assert forall|s: Slot| #[trigger] outside_shift(s, n) implies outside_shift(s, (n - 1) as nat)
            && d1.contains_key(s) == d.contains_key(s) && (d.contains_key(s) ==> d1[s] == d[s]) by {
            assert(outside_shift(s, (n - 1) as nat));
        }
    }
}

/// With backups in every slot below `n - 1`, shifting moves each of them up
/// one slot and leaves slot 0 empty.
proof fn lemma_shift_full(d: Disk, n: nat)
    requires
        n <= usize::MAX,
        forall|j: usize| j + 1 < n ==> #[trigger] d.contains_key(Slot::Backup(j)),
    ensures
        forall|i: usize|
            1 <= i < n ==> #[trigger] run_ops(d, shift_ops(n))->Some_0.contains_key(Slot::Backup(i))
                && run_ops(d, shift_ops(n))->Some_0[Slot::Backup(i)] == d[Slot::Backup((i - 1) as usize)],
        n >= 2 ==> !run_ops(d, shift_ops(n))->Some_0.contains_key(Slot::Backup(0)),
    decreases n,
{
    lemma_shift_keeps(d, n);
    if n > 1 {
        let op = OpModel::RenameIfExists {
            from: Slot::Backup((n - 2) as usize),
            to: Slot::Backup((n - 1) as usize),
        };
        lemma_run_concat(d, seq![op], shift_ops((n - 1) as nat));
        lemma_run_single(d, op);
        assert(d.contains_key(Slot::Backup((n - 2) as usize)));
        let d1 = moved(d, Slot::Backup((n - 2) as usize), Slot::Backup((n - 1) as usize));
        assert(apply_op(d, op) == Some(d1));
        lemma_shift_keeps(d1, (n - 1) as nat);
        assert forall|j: usize| j + 1 < n - 1 implies #[trigger] d1.contains_key(Slot::Backup(j)) by {
            assert(d.contains_key(Slot::Backup(j)));
        }
        lemma_shift_full(d1, (n - 1) as nat);
        let d2 = run_ops(d1, shift_ops((n - 1) as nat))->Some_0;
        assert(run_ops(d, shift_ops(n)) == run_ops(d1, shift_ops((n - 1) as nat)));
        assert(outside_shift(Slot::Backup((n - 1) as usize), (n - 1) as nat));
        assert forall|i: usize| 1 <= i < n implies #[trigger] d2.contains_key(Slot::Backup(i))
            && d2[Slot::Backup(i)] == d[Slot::Backup((i - 1) as usize)] by {
            if i + 1 < n {
                assert(d1[Slot::Backup((i - 1) as usize)] == d[Slot::Backup((i - 1) as usize)]);
            }
        }
        if n == 2 {
            assert(shift_ops(1) =~= Seq::<OpModel>::empty());
        }
    }
}

/// A rotation shifts the backups, then retires the live file and restarts it
/// with the header.
proof fn lemma_rotation(d: Disk, n: nat, h: Option<Seq<u8>>)
    requires
        n <= usize::MAX,
        d.contains_key(Slot::Live),
    ensures
        run_ops(d, rotation_ops(n, h)) == Some(restarted(run_ops(d, shift_ops(n))->Some_0, h)),
{
    lemma_shift_keeps(d, n);
    let ds = run_ops(d, shift_ops(n))->Some_0;
    assert(outside_shift(Slot::Live, n));
    let a = seq![OpModel::Flush];
    let c = seq![OpModel::Rename { from: Slot::Live, to: Slot::Backup(0) }, OpModel::OpenLive];
    assert(rotation_ops(n, h) == a + shift_ops(n) + c + header_ops(h));
    lemma_run_concat(d, a + shift_ops(n) + c, header_ops(h));
    lemma_run_concat(d, a + shift_ops(n), c);
    lemma_run_concat(d, a, shift_ops(n));
    lemma_run_single(d, OpModel::Flush);
    let dm = moved(ds, Slot::Live, Slot::Backup(0));
    let dr = dm.insert(Slot::Live, Seq::empty());
    assert(c =~= seq![OpModel::Rename { from: Slot::Live, to: Slot::Backup(0) }] + seq![OpModel::OpenLive]);
    lemma_run_concat(ds, seq![OpModel::Rename { from: Slot::Live, to: Slot::Backup(0) }], seq![OpModel::OpenLive]);
    lemma_run_single(ds, OpModel::Rename { from: Slot::Live, to: Slot::Backup(0) });
    lemma_run_single(dm, OpModel::OpenLive);
    assert(run_ops(ds, c) == Some(dr));
    match h {
        Some(b) => {
            lemma_run_single(dr, OpModel::Append(b));
            assert(dr.insert(Slot::Live, dr[Slot::Live] + b) =~= restarted(ds, h));
        },
        None => {
            assert(dr =~= restarted(ds, h));
        },
    }
}

/// Whatever backups exist, a rotation retires the live file whole into slot
/// 0 and starts the new live file with exactly the header.
pub proof fn law_rotation_restarts_with_header(d: Disk, n: nat, h: Option<Seq<u8>>)
    requires
        n <= usize::MAX,
        d.contains_key(Slot::Live),
    ensures
        run_ops(d, rotation_ops(n, h)) matches Some(d2) && d2.contains_key(Slot::Live)
            && d2[Slot::Live] == header_bytes(h) && d2.contains_key(Slot::Backup(0)) && d2[Slot::Backup(0)] == d[Slot::Live],
{
    lemma_shift_keeps(d, n);
    assert(outside_shift(Slot::Live, n));
    lemma_rotation(d, n, h);
}

/// With the chain of `n` backup slots filled below its top, a rotation moves
/// backup `i - 1` into slot `i` for each `1 <= i < n`, retires the live file
/// into slot 0, restarts the live file with the header, and leaves every slot
/// from `n` up as it was: what sat in slot `n - 1` is gone.
pub proof fn law_backup_chain_shift(d: Disk, n: nat, h: Option<Seq<u8>>)
    requires
        n <= usize::MAX,
        d.contains_key(Slot::Live),
        forall|j: usize| j + 1 < n ==> #[trigger] d.contains_key(Slot::Backup(j)),
    ensures
        run_ops(d, rotation_ops(n, h)) matches Some(d2) && d2[Slot::Live] == header_bytes(h)
            && d2[Slot::Backup(0)] == d[Slot::Live] && (forall|i: usize|
            1 <= i < n ==> #[trigger] d2.contains_key(Slot::Backup(i)) && d2[Slot::Backup(i)]
                == d[Slot::Backup((i - 1) as usize)]) && (forall|i: usize|
            i >= n && i >= 1 ==> (#[trigger] d2.contains_key(Slot::Backup(i)) == d.contains_key(
                Slot::Backup(i),
            ) && (d.contains_key(Slot::Backup(i)) ==> d2[Slot::Backup(i)] == d[Slot::Backup(i)]))),
{
    lemma_shift_keeps(d, n);
    lemma_shift_full(d, n);
    lemma_rotation(d, n, h);
    let ds = run_ops(d, shift_ops(n))->Some_0;
    assert(outside_shift(Slot::Live, n));
    assert forall|i: usize| 1 <= i < n implies #[trigger] restarted(ds, h).contains_key(Slot::Backup(i))
        && restarted(ds, h)[Slot::Backup(i)] == d[Slot::Backup((i - 1) as usize)] by {
        assert(ds.contains_key(Slot::Backup(i)));
    }
    assert forall|i: usize| i >= n && i >= 1 implies (#[trigger] restarted(ds, h).contains_key(
        Slot::Backup(i),
    ) == d.contains_key(Slot::Backup(i)) && (d.contains_key(Slot::Backup(i))
        ==> restarted(ds, h)[Slot::Backup(i)] == d[Slot::Backup(i)])) by {
        assert(outside_shift(Slot::Backup(i), n));
    }
}

/// A write that crosses the limit rotates exactly once, before its bytes are
/// written: the old live file lands whole in slot 0 and the new live file
/// holds the header and then the bytes. A write that does not cross the limit
/// only appends to the live file.
pub proof fn law_rotation_precedes_write(w: WriterState, d: Disk, bytes: Seq<u8>)
    requires
        w.backup_count <= usize::MAX,
        d.contains_key(Slot::Live),
    ensures
        crosses(w, bytes.len()) ==> (emit_step(w, d, bytes) matches Some((w2, d2))
            && d2[Slot::Backup(0)] == d[Slot::Live] && d2[Slot::Live] == header_bytes(w.header) + bytes
            && w2 == with_size(w, capped(bytes.len()))),
        !crosses(w, bytes.len()) ==> emit_step(w, d, bytes) == Some(
            (
                with_size(w, capped(w.current_size + bytes.len())),
                d.insert(Slot::Live, d[Slot::Live] + bytes),
            ),
        ),
{
    let app = seq![OpModel::Append(bytes)];
    if crosses(w, bytes.len()) {
        law_rotation_restarts_with_header(d, w.backup_count, w.header);
        let d1 = run_ops(d, rotation_ops(w.backup_count, w.header))->Some_0;
        lemma_run_concat(d, rotation_ops(w.backup_count, w.header), app);
        lemma_run_single(d1, OpModel::Append(bytes));
        assert(emit_ops(w, bytes) == rotation_ops(w.backup_count, w.header) + app);
        let d2 = d1.insert(Slot::Live, d1[Slot::Live] + bytes);
        assert(run_ops(d, emit_ops(w, bytes)) == Some(d2));
        assert(emit_step(w, d, bytes) == Some((with_size(w, capped(bytes.len())), d2)));
    } else {
        assert(emit_ops(w, bytes) =~= Seq::<OpModel>::empty() + app);
        lemma_run_concat(d, Seq::<OpModel>::empty(), app);
        lemma_run_single(d, OpModel::Append(bytes));
    }
}

/// Opening a writer on a live file of `N` bytes counts them; a write of `M`
/// more bytes that keeps `N`, the header and `M` within the limit then
/// rotates nothing and leaves a live file of exactly that many bytes.
pub proof fn law_reopen_accounting(w: WriterState, d: Disk, bytes: Seq<u8>)
    requires
        w.max_bytes <= u64::MAX,
        w.backup_count <= usize::MAX,
        d.contains_key(Slot::Live),
        d[Slot::Live].len() + header_bytes(w.header).len() + bytes.len() <= w.max_bytes,
    ensures
        run_ops(d, open_ops(w.header)) matches Some(d1) && emit_step(
            with_size(w, d1[Slot::Live].len()),
            d1,
            bytes,
        ) matches Some((w2, d2)) && d2 == d.insert(
            Slot::Live,
            d[Slot::Live] + header_bytes(w.header) + bytes,
        ) && d2[Slot::Live].len() == d[Slot::Live].len() + header_bytes(w.header).len() + bytes.len()
            && w2.current_size == d2[Slot::Live].len(),
{
    law_open_appends_header(d, w.header);
    let d1 = d.insert(Slot::Live, d[Slot::Live] + header_bytes(w.header));
    let w1 = with_size(w, d1[Slot::Live].len());
    law_rotation_precedes_write(w1, d1, bytes);
    assert(d1.insert(Slot::Live, d1[Slot::Live] + bytes) =~= d.insert(
        Slot::Live,
        d[Slot::Live] + header_bytes(w.header) + bytes,
    ));
}

/// The outcome of writing each of `payloads` in turn.
pub open spec fn emit_all(w: WriterState, d: Disk, payloads: Seq<Seq<u8>>) -> Option<(WriterState, Disk)>
    decreases payloads.len(),
{
    if payloads.len() == 0 {
        Some((w, d))
    } else {
        match emit_step(w, d, payloads.first()) {
            Some((w2, d2)) => emit_all(w2, d2, payloads.drop_first()),
            None => None,
        }
    }
}

/// Writes that together stay within the limit only ever append to the live
/// file: no backup appears, none moves, and the size counter adds up.
pub proof fn law_quiet_writes(w: WriterState, d: Disk, payloads: Seq<Seq<u8>>)
    requires
        w.max_bytes <= u64::MAX,
        w.backup_count <= usize::MAX,
        d.contains_key(Slot::Live),
        w.current_size + payloads.flatten().len() <= w.max_bytes,
    ensures
        emit_all(w, d, payloads) matches Some((w2, d2)) && d2 == d.insert(
            Slot::Live,
            d[Slot::Live] + payloads.flatten(),
        ) && d2.contains_key(Slot::Backup(0)) == d.contains_key(Slot::Backup(0))
            && w2.current_size == w.current_size + payloads.flatten().len(),
    decreases payloads.len(),
{
    if payloads.len() == 0 {
        assert(d.insert(Slot::Live, d[Slot::Live] + payloads.flatten()) =~= d);
    } else {
        let p = payloads.first();
        law_rotation_precedes_write(w, d, p);
        let w1 = with_size(w, capped(w.current_size + p.len()));
        let d1 = d.insert(Slot::Live, d[Slot::Live] + p);
        law_quiet_writes(w1, d1, payloads.drop_first());
        assert(d[Slot::Live] + p + payloads.drop_first().flatten() =~= d[Slot::Live] + payloads.flatten());
        assert(d1.insert(Slot::Live, d1[Slot::Live] + payloads.drop_first().flatten()) =~= d.insert(
            Slot::Live,
            d[Slot::Live] + payloads.flatten(),
        ));
    }
}

} // verus!
