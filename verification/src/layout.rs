//! Which workspace rows an output shows, and a structural signature of
//! their arrangement that ignores tile geometry.

use std::collections::hash_map::DefaultHasher;
use std::collections::HashMap;
use std::hash::Hasher;
use vstd::prelude::*;
use vstd::std_specs::hash::DefaultHasherAdditionalSpecFns;

use crate::config::WorkspaceMode;
use crate::model::{
    display_order, first_active, is_display_order, lemma_output_order_keys, map_keys, output_order,
    MinimapState, Window, Workspace, WorkspaceView,
};
use crate::order::{lemma_sorted_no_duplicates, lemma_sorted_unique, strictly_sorted};

verus! {

/// Whether a workspace gets a row in `all` mode: it has windows or is the
/// active one.
pub open spec fn shows_row(w: WorkspaceView) -> bool {
    !w.windows.is_empty() || w.is_active
}

/// The keys of the workspace rows shown for an output.
///
/// In `all` mode: the output's workspaces in display order that have
/// windows or are active. In `current` mode: the output's active workspace,
/// if any.
pub open spec fn shown_keys(m: Map<u64, WorkspaceView>, output: Seq<char>, mode: WorkspaceMode) -> Seq<u64> {
    match mode {
        WorkspaceMode::All => output_order(m, output).filter(|k: u64| shows_row(m[k])),
        WorkspaceMode::Current => match first_active(m, output_order(m, output)) {
            Some(k) => seq![k],
            None => Seq::empty(),
        },
    }
}

impl MinimapState {
    /// The keys of the workspace rows shown for an output, top to bottom.
    pub fn shown_workspace_keys(&self, output: &str, mode: WorkspaceMode) -> (ks: Vec<u64>)
        ensures
            ks@ == shown_keys(self@.workspaces, output@, mode),
            forall|k: u64| ks@.contains(k) ==> self@.workspaces.contains_key(k),
    {
        let ghost m = self@.workspaces;
        match mode {
            WorkspaceMode::Current => {
                let all = self.output_keys(output);
                let mut ks: Vec<u64> = Vec::new();
                let mut i: usize = 0;
                proof {
                    lemma_output_order_keys(m, output@);
                    assert(all@.skip(0) =~= all@);
                }
                while i < all.len()
                    invariant
                        i <= all@.len(),
                        m == self@.workspaces,
                        all@ == output_order(m, output@),
                        forall|k: u64| all@.contains(k) ==> m.contains_key(k),
                        first_active(m, all@) == first_active(m, all@.skip(i as int)),
                        ks@.len() == 0,
                        mode == WorkspaceMode::Current,
                    decreases all@.len() - i,
                {
                    proof {
                        assert(all@.contains(all@[i as int]));
                        assert(all@.skip(i as int)[0] == all@[i as int]);
                        assert(all@.skip(i as int).drop_first() =~= all@.skip(i + 1));
                    }
                    let w = self.workspaces.get(&all[i]).unwrap();
                    if w.is_active {
                        ks.push(all[i]);
                        proof {
                            assert(m[all@[i as int]] == w@);
                            assert(first_active(m, all@.skip(i as int)) == Some(all@[i as int]));
                            assert(ks@ =~= seq![all@[i as int]]);
                        }
                        return ks;
                    }
                    i += 1;
                }
                proof {
                    assert(ks@ =~= Seq::<u64>::empty());
                }
                ks
            },
            WorkspaceMode::All => {
                let all = self.output_keys(output);
                let ghost pred = |k: u64| shows_row(m[k]);
                let mut ks: Vec<u64> = Vec::new();
                let mut i: usize = 0;
                proof {
                    lemma_output_order_keys(m, output@);
                }
                while i < all.len()
                    invariant
                        i <= all@.len(),
                        m == self@.workspaces,
                        all@ == output_order(m, output@),
                        forall|k: u64| all@.contains(k) ==> m.contains_key(k),
                        pred == (|k: u64| shows_row(m[k])),
                        ks@ == all@.take(i as int).filter(pred),
                    decreases all@.len() - i,
                {
                    proof {
                        assert(all@.contains(all@[i as int]));
                        assert(all@.take(i + 1).drop_last() =~= all@.take(i as int));
                    }
                    let w = self.workspaces.get(&all[i]).unwrap();
                    let shown = !w.windows.is_empty() || w.is_active;
                    proof {
                        assert(m[all@[i as int]] == w@);
                        assert(pred(all@[i as int]) == shown);
                    }
                    if shown {
                        ks.push(all[i]);
                    }
                    proof {
                        reveal_with_fuel(Seq::<_>::filter, 1);
                        assert(all@.take(i + 1).last() == all@[i as int]);
                        assert(ks@ =~= all@.take(i + 1).filter(pred));
                    }
                    i += 1;
                }
                proof {
                    assert(all@.take(all@.len() as int) =~= all@);
                    assert forall|k: u64| ks@.contains(k) implies m.contains_key(k) by {
                        all@.lemma_filter_contains_rev(pred, k);
                    }
                }
                ks
            },
        }
    }
}

/// A window's place in the arrangement: its id, its column and its index
/// in the column.
pub open spec fn window_cell(w: Window) -> (u64, usize, usize) {
    (w.id, w.column_index, w.window_index)
}

/// Lexicographic order of a window's cell followed by its key.
pub open spec fn quad_lt(a: (u64, usize, usize, u64), b: (u64, usize, usize, u64)) -> bool {
    if a.0 != b.0 {
        a.0 < b.0
    } else if a.1 != b.1 {
        a.1 < b.1
    } else if a.2 != b.2 {
        a.2 < b.2
    } else {
        a.3 < b.3
    }
}

/// [`quad_lt`] as a relation.
pub open spec fn quad_order() -> spec_fn((u64, usize, usize, u64), (u64, usize, usize, u64)) -> bool {
    |a: (u64, usize, usize, u64), b: (u64, usize, usize, u64)| quad_lt(a, b)
}

/// Each window's cell paired with its key.
pub open spec fn keyed_cells(ws: Map<u64, Window>) -> Set<(u64, usize, usize, u64)> {
    Set::new(|q: (u64, usize, usize, u64)| ws.contains_key(q.3) && window_cell(ws[q.3]) == (q.0, q.1, q.2))
}

/// The elements of a set of quadruples in increasing order.
pub open spec fn sorted_listing(x: Set<(u64, usize, usize, u64)>) -> Seq<(u64, usize, usize, u64)> {
    choose|s: Seq<(u64, usize, usize, u64)>| s.to_set() == x && strictly_sorted(s, quad_order())
}

/// The keyed cells of the windows in increasing order.
pub open spec fn sorted_keyed_cells(ws: Map<u64, Window>) -> Seq<(u64, usize, usize, u64)> {
    sorted_listing(keyed_cells(ws))
}

/// The cells of the windows, sorted (a cell shared by several windows
/// occurs once for each).
pub open spec fn sorted_cells(ws: Map<u64, Window>) -> Seq<(u64, usize, usize)> {
    sorted_keyed_cells(ws).map_values(|q: (u64, usize, usize, u64)| (q.0, q.1, q.2))
}

/// Whether `a` sorts before `b` in [`quad_lt`].
fn quad_less(a: (u64, usize, usize, u64), b: (u64, usize, usize, u64)) -> (r: bool)
    ensures
        r == quad_lt(a, b),
{
    if a.0 != b.0 {
        a.0 < b.0
    } else if a.1 != b.1 {
        a.1 < b.1
    } else if a.2 != b.2 {
        a.2 < b.2
    } else {
        a.3 < b.3
    }
}

/// The cells of a workspace's windows, sorted.
pub fn sorted_window_cells(ws: &Workspace) -> (cells: Vec<(u64, usize, usize)>)
    ensures
        cells@ == sorted_cells(ws@.windows),
{
    let ghost m = ws@.windows;
    let keys = map_keys(&ws.windows);
    let mut quads: Vec<(u64, usize, usize, u64)> = Vec::new();
    let mut i: usize = 0;
    while i < keys.len()
        invariant
            i <= keys@.len(),
            m == ws@.windows,
            keys@.no_duplicates(),
            keys@.to_set() == m.dom(),
            quads@.len() == i,
            forall|t: int| 0 <= t < i ==> (#[trigger] quads@[t]).3 == keys@[t]
                && window_cell(m[keys@[t]]) == (quads@[t].0, quads@[t].1, quads@[t].2),
        decreases keys@.len() - i,
    {
        proof {
            assert(keys@.to_set().contains(keys@[i as int]));
        }
        let w = ws.windows.get(&keys[i]).unwrap();
        quads.push((w.id, w.column_index, w.window_index, keys[i]));
        i += 1;
    }
    proof {
        assert forall|s: int, t: int| 0 <= s < quads@.len() && 0 <= t < quads@.len() && s != t
            implies quads@[s] != quads@[t] by {
            assert(quads@[s].3 == keys@[s] && quads@[t].3 == keys@[t]);
        }
        assert forall|q: (u64, usize, usize, u64)| quads@.to_set().contains(q) <==> keyed_cells(m).contains(q) by {
            if quads@.to_set().contains(q) {
                let t = quads@.index_of(q);
                assert(quads@[t].3 == keys@[t]);
                assert(keys@.to_set().contains(keys@[t]));
            }
            if keyed_cells(m).contains(q) {
                assert(keys@.to_set().contains(q.3));
                let t = keys@.index_of(q.3);
                assert(quads@[t].3 == keys@[t]);
                assert(quads@[t] == q);
            }
        }
    }
    let sorted = crate::order::sort_strict(quads, Ghost(quad_order()), quad_less);
    proof {
        let s = sorted_keyed_cells(m);
        assert(sorted@.to_set() =~= keyed_cells(m));
        assert(s.to_set() == keyed_cells(m) && strictly_sorted(s, quad_order()));
        lemma_sorted_unique(sorted@, s, quad_order());
    }
    let mut cells: Vec<(u64, usize, usize)> = Vec::new();
    let mut j: usize = 0;
    while j < sorted.len()
        invariant
            j <= sorted@.len(),
            sorted@ == sorted_keyed_cells(m),
            cells@ =~= sorted@.take(j as int).map_values(|q: (u64, usize, usize, u64)| (q.0, q.1, q.2)),
        decreases sorted@.len() - j,
    {
        let q = sorted[j];
        cells.push((q.0, q.1, q.2));
        j += 1;
    }
    proof {
        assert(sorted@.take(sorted@.len() as int) =~= sorted@);
    }
    cells
}

/// The eight bytes of a 64-bit value, least significant first: what the
/// standard hasher is fed for an integer on a little-endian 64-bit machine.
pub open spec fn le_bytes(x: u64) -> Seq<u8> {
    seq![
        x as u8,
        (x >> 8u64) as u8,
        (x >> 16u64) as u8,
        (x >> 24u64) as u8,
        (x >> 32u64) as u8,
        (x >> 40u64) as u8,
        (x >> 48u64) as u8,
        (x >> 56u64) as u8,
    ]
}

/// The byte the standard hasher is fed for a `bool`.
pub open spec fn bool_byte(b: bool) -> Seq<u8> {
    seq![if b { 1u8 } else { 0u8 }]
}

/// The chunks hashed for a list of cells, one per field.
pub open spec fn cell_chunks(cells: Seq<(u64, usize, usize)>) -> Seq<Seq<u8>>
    decreases cells.len(),
{
    if cells.len() == 0 {
        Seq::empty()
    } else {
        let c = cells.last();
        cell_chunks(cells.drop_last()) + seq![le_bytes(c.0), le_bytes(c.1 as u64), le_bytes(c.2 as u64)]
    }
}

/// The chunks hashed for one workspace row: its id, whether it is active,
/// and its sorted window cells with their count in front.
pub open spec fn row_chunks(w: WorkspaceView) -> Seq<Seq<u8>> {
    let cells = sorted_cells(w.windows);
    seq![le_bytes(w.id), bool_byte(w.is_active), le_bytes(cells.len() as u64)] + cell_chunks(cells)
}

/// The chunks hashed for a list of rows.
pub open spec fn rows_chunks(m: Map<u64, WorkspaceView>, ks: Seq<u64>) -> Seq<Seq<u8>>
    decreases ks.len(),
{
    if ks.len() == 0 {
        Seq::empty()
    } else {
        rows_chunks(m, ks.drop_last()) + row_chunks(m[ks.last()])
    }
}

/// The chunks hashed for the layout signature of an output: the number of
/// rows shown, then each row.
pub open spec fn signature_chunks(m: Map<u64, WorkspaceView>, output: Seq<char>, mode: WorkspaceMode) -> Seq<Seq<u8>> {
    let ks = shown_keys(m, output, mode);
    seq![le_bytes(ks.len() as u64)] + rows_chunks(m, ks)
}

/// The bytes of [`le_bytes`].
fn le_bytes_of(x: u64) -> (b: Vec<u8>)
    ensures
        b@ == le_bytes(x),
{
    let mut b: Vec<u8> = Vec::new();
    b.push(x as u8);
    b.push((x >> 8u64) as u8);
    b.push((x >> 16u64) as u8);
    b.push((x >> 24u64) as u8);
    b.push((x >> 32u64) as u8);
    b.push((x >> 40u64) as u8);
    b.push((x >> 48u64) as u8);
    b.push((x >> 56u64) as u8);
    proof {
        assert(b@ =~= le_bytes(x));
    }
    b
}

/// Feed one workspace row to the hasher.
fn hash_row(hasher: &mut DefaultHasher, ws: &Workspace)
    ensures
        final(hasher)@ == old(hasher)@ + row_chunks(ws@),
{
    let cells = sorted_window_cells(ws);
    let id = le_bytes_of(ws.id);
    hasher.write(id.as_slice());
    let active: [u8; 1] = [if ws.is_active { 1u8 } else { 0u8 }];
    hasher.write(&active);
    proof {
        assert(active@ =~= bool_byte(ws.is_active));
    }
    let len = le_bytes_of(cells.len() as u64);
    hasher.write(len.as_slice());
    let ghost base = hasher@;
    let mut i: usize = 0;
    while i < cells.len()
        invariant
            i <= cells@.len(),
            cells@ == sorted_cells(ws@.windows),
            hasher@ == base + cell_chunks(cells@.take(i as int)),
        decreases cells@.len() - i,
    {
        let c = cells[i];
        let a = le_bytes_of(c.0);
        hasher.write(a.as_slice());
        let b = le_bytes_of(c.1 as u64);
        hasher.write(b.as_slice());
        let d = le_bytes_of(c.2 as u64);
        hasher.write(d.as_slice());
        proof {
            let t = cells@.take(i + 1);
            assert(t.drop_last() =~= cells@.take(i as int));
            assert(t.last() == c);
            assert(hasher@ =~= base + cell_chunks(t));
        }
        i += 1;
    }
    proof {
        assert(cells@.take(cells@.len() as int) =~= cells@);
        assert(hasher@ =~= old(hasher)@ + row_chunks(ws@));
    }
}

impl MinimapState {
    /// A structural signature of what an output shows: which workspace rows
    /// there are and how their windows are arranged into columns, never tile
    /// sizes or positions.
    ///
    /// The compositor animates tile sizes while its overview opens and
    /// closes; those frames must not re-measure the minimap, while a window
    /// moving to another column or a row appearing must. A window resize is
    /// not covered, for the same reason tile sizes are left out.
    pub fn layout_signature(&self, output: &str, mode: WorkspaceMode) -> (sig: u64)
        ensures
            sig == DefaultHasher::spec_finish(signature_chunks(self@.workspaces, output@, mode)),
    {
        let ghost m = self@.workspaces;
        let ks = self.shown_workspace_keys(output, mode);
        let mut hasher = DefaultHasher::new();
        let n = le_bytes_of(ks.len() as u64);
        hasher.write(n.as_slice());
        let ghost base = hasher@;
        let mut i: usize = 0;
        while i < ks.len()
            invariant
                i <= ks@.len(),
                m == self@.workspaces,
                forall|k: u64| ks@.contains(k) ==> m.contains_key(k),
                hasher@ == base + rows_chunks(m, ks@.take(i as int)),
            decreases ks@.len() - i,
        {
            proof {
                assert(ks@.contains(ks@[i as int]));
            }
            let ws = self.workspaces.get(&ks[i]).unwrap();
            hash_row(&mut hasher, ws);
            proof {
                let t = ks@.take(i + 1);
                assert(t.drop_last() =~= ks@.take(i as int));
                assert(t.last() == ks@[i as int]);
                assert(m[ks@[i as int]] == ws@);
                assert(hasher@ =~= base + rows_chunks(m, t));
            }
            i += 1;
        }
        proof {
            assert(ks@.take(ks@.len() as int) =~= ks@);
            assert(hasher@ =~= signature_chunks(m, output@, mode));
        }
        hasher.finish()
    }
}

/// What the layout signature sees of a workspace: its id, index and
/// output, whether it is active, and the cell of each window.
pub open spec fn arrangement(w: WorkspaceView) -> (u64, u8, Option<String>, bool, Map<u64, (u64, usize, usize)>) {
    (w.id, w.idx, w.output, w.is_active, w.windows.map_values(|x: Window| window_cell(x)))
}

/// Filtering by two predicates that agree on the elements gives the same.
proof fn lemma_filter_congruent(s: Seq<u64>, p: spec_fn(u64) -> bool, q: spec_fn(u64) -> bool)
    requires
        forall|x: u64| s.contains(x) ==> p(x) == q(x),
    ensures
        s.filter(p) == s.filter(q),
    decreases s.len(),
{
    reveal_with_fuel(Seq::<_>::filter, 1);
    if s.len() > 0 {
        let t = s.drop_last();
        assert forall|x: u64| t.contains(x) implies p(x) == q(x) by {
            let i = t.index_of(x);
            assert(s[i] == x);
            assert(s.contains(x));
        }
        lemma_filter_congruent(t, p, q);
        assert(s.contains(s.last()));
    }
}

/// The first active key of a list depends only on the listed workspaces.
proof fn lemma_first_active_congruent(a: Map<u64, WorkspaceView>, b: Map<u64, WorkspaceView>, ks: Seq<u64>)
    requires
        forall|k: u64| ks.contains(k) ==> a[k].is_active == b[k].is_active,
    ensures
        first_active(a, ks) == first_active(b, ks),
    decreases ks.len(),
{
    if ks.len() > 0 {
        assert(ks.contains(ks[0]));
        let t = ks.drop_first();
        assert forall|k: u64| t.contains(k) implies a[k].is_active == b[k].is_active by {
            let i = t.index_of(k);
            assert(ks[i + 1] == k);
            assert(ks.contains(k));
        }
        lemma_first_active_congruent(a, b, t);
    }
}

/// The chunks of a list of rows depend only on the arrangement of the
/// listed workspaces.
proof fn lemma_rows_chunks_congruent(a: Map<u64, WorkspaceView>, b: Map<u64, WorkspaceView>, ks: Seq<u64>)
    requires
        forall|k: u64| ks.contains(k) ==> arrangement(a[k]) == arrangement(b[k]),
    ensures
        rows_chunks(a, ks) == rows_chunks(b, ks),
    decreases ks.len(),
{
    if ks.len() > 0 {
        let t = ks.drop_last();
        assert forall|k: u64| t.contains(k) implies arrangement(a[k]) == arrangement(b[k]) by {
            let i = t.index_of(k);
            assert(ks[i] == k);
            assert(ks.contains(k));
        }
        lemma_rows_chunks_congruent(a, b, t);
        let k = ks.last();
        assert(ks.contains(k));
        let (wa, wb) = (a[k].windows, b[k].windows);
        assert(wa.map_values(|x: Window| window_cell(x)) == wb.map_values(|x: Window| window_cell(x)));
        assert forall|q: (u64, usize, usize, u64)| keyed_cells(wa).contains(q) <==> keyed_cells(wb).contains(q) by {
            assert(wa.dom() =~= wa.map_values(|x: Window| window_cell(x)).dom());
            assert(wb.dom() =~= wb.map_values(|x: Window| window_cell(x)).dom());
            if wa.contains_key(q.3) {
                assert(wa.map_values(|x: Window| window_cell(x))[q.3] == window_cell(wa[q.3]));
                assert(wb.map_values(|x: Window| window_cell(x))[q.3] == window_cell(wb[q.3]));
            }
        }
        assert(keyed_cells(wa) =~= keyed_cells(wb));
        assert(wa.dom() =~= wa.map_values(|x: Window| window_cell(x)).dom());
        assert(wb.dom() =~= wb.map_values(|x: Window| window_cell(x)).dom());
    }
}

/// The display order exists for every finite map of workspaces.
pub proof fn lemma_display_order_exists(m: Map<u64, WorkspaceView>)
    requires
        m.dom().finite(),
    ensures
        is_display_order(m, display_order(m)),
{
    let lt = crate::model::ws_key_lt(m);
    assert forall|x: u64, y: u64, z: u64| #![trigger lt(x, y), lt(y, z)] m.contains_key(x) && m.contains_key(y)
        && m.contains_key(z) implies !lt(x, x) && (x != y ==> lt(x, y) || lt(y, x)) && (lt(x, y) && lt(y, z) ==> lt(x, z)) by {
        crate::model::lemma_ws_key_lt_order(m, x, y, z);
    }
    assert forall|x: u64| m.contains_key(x) implies !#[trigger] lt(x, x) by {
        crate::model::lemma_ws_key_lt_order(m, x, x, x);
    }
    assert forall|x: u64, y: u64| m.contains_key(x) && m.contains_key(y) && x != y implies #[trigger] lt(x, y) || lt(y, x) by {
        crate::model::lemma_ws_key_lt_order(m, x, y, y);
    }
    let ks = crate::order::lemma_sorted_listing_exists(m.dom(), lt);
    assert(is_display_order(m, ks));
}

/// Whether two workspaces agree on what decides the rows shown: their id,
/// index, output, activity and which windows they hold.
pub open spec fn same_rows(a: WorkspaceView, b: WorkspaceView) -> bool {
    a.id == b.id && a.idx == b.idx && a.output == b.output && a.is_active == b.is_active
        && a.windows.dom() == b.windows.dom()
}

/// The rows shown depend only on the workspaces' ids, indices, outputs,
/// activity and which windows they hold.
proof fn lemma_shown_keys_congruent(
    a: Map<u64, WorkspaceView>,
    b: Map<u64, WorkspaceView>,
    output: Seq<char>,
    mode: WorkspaceMode,
)
    requires
        a.dom().finite(),
        a.dom() == b.dom(),
        forall|k: u64| a.contains_key(k) ==> same_rows(a[k], b[k]),
    ensures
        shown_keys(a, output, mode) == shown_keys(b, output, mode),
        forall|k: u64| shown_keys(a, output, mode).contains(k) ==> a.contains_key(k),
{
    lemma_display_order_exists(a);
    let d = display_order(a);
    assert(crate::order::strictly_sorted(d, crate::model::ws_key_lt(b))) by {
        assert forall|i: int, j: int| 0 <= i < j < d.len() implies crate::model::ws_key_lt(b)(d[i], d[j]) by {
            assert(d.to_set().contains(d[i]) && d.to_set().contains(d[j]));
            assert(crate::model::ws_key_lt(a)(d[i], d[j]));
        }
    }
    assert(is_display_order(b, d));
    crate::model::lemma_display_order_unique(b, d);
    let oa = output_order(a, output);
    assert forall|k: u64| d.contains(k) implies crate::model::on_output(a[k], output) == crate::model::on_output(b[k], output) by {
        assert(d.to_set().contains(k));
    }
    lemma_filter_congruent(d, |k: u64| crate::model::on_output(a[k], output), |k: u64| crate::model::on_output(b[k], output));
    lemma_output_order_keys(a, output);
    assert forall|k: u64| oa.contains(k) implies shows_row(a[k]) == shows_row(b[k]) && a[k].is_active == b[k].is_active by {
        assert(a.contains_key(k));
    }
    lemma_filter_congruent(oa, |k: u64| shows_row(a[k]), |k: u64| shows_row(b[k]));
    lemma_first_active_congruent(a, b, oa);
    let ks = shown_keys(a, output, mode);
    assert forall|k: u64| ks.contains(k) implies a.contains_key(k) by {
        match mode {
            WorkspaceMode::All => {
                oa.lemma_filter_contains_rev(|k: u64| shows_row(a[k]), k);
                assert(oa.contains(k));
            },
            WorkspaceMode::Current => {
                lemma_first_active_member(a, oa);
                assert(ks[0] == k);
                assert(oa.contains(k));
            },
        }
    }
}

/// The layout signature depends only on the arrangement: two states whose
/// workspaces agree on ids, indices, outputs, activity and the cells of
/// their windows have the same signature, whatever their tile sizes,
/// positions, focus, titles or the order in which they were filled.
pub proof fn law_signature_depends_only_on_arrangement(
    a: Map<u64, WorkspaceView>,
    b: Map<u64, WorkspaceView>,
    output: Seq<char>,
    mode: WorkspaceMode,
)
    requires
        a.dom().finite(),
        a.dom() == b.dom(),
        forall|k: u64| a.contains_key(k) ==> arrangement(a[k]) == arrangement(b[k]),
    ensures
        signature_chunks(a, output, mode) == signature_chunks(b, output, mode),
{
    assert forall|k: u64| a.contains_key(k) implies same_rows(a[k], b[k]) by {
        assert(a[k].windows.dom() =~= a[k].windows.map_values(|x: Window| window_cell(x)).dom());
        assert(b[k].windows.dom() =~= b[k].windows.map_values(|x: Window| window_cell(x)).dom());
    }
    lemma_shown_keys_congruent(a, b, output, mode);
    let ks = shown_keys(a, output, mode);
    assert forall|k: u64| ks.contains(k) implies arrangement(a[k]) == arrangement(b[k]) by {
        assert(a.contains_key(k));
    }
    lemma_rows_chunks_congruent(a, b, ks);
}

/// Different values have different bytes.
proof fn lemma_le_bytes_injective(x: u64, y: u64)
    requires
        le_bytes(x) == le_bytes(y),
    ensures
        x == y,
{
    assert(le_bytes(x)[0] == le_bytes(y)[0]);
    assert(le_bytes(x)[1] == le_bytes(y)[1]);
    assert(le_bytes(x)[2] == le_bytes(y)[2]);
    assert(le_bytes(x)[3] == le_bytes(y)[3]);
    assert(le_bytes(x)[4] == le_bytes(y)[4]);
    assert(le_bytes(x)[5] == le_bytes(y)[5]);
    assert(le_bytes(x)[6] == le_bytes(y)[6]);
    assert(le_bytes(x)[7] == le_bytes(y)[7]);
    assert(x == y) by (bit_vector)
        requires
            x as u8 == y as u8,
            (x >> 8u64) as u8 == (y >> 8u64) as u8,
            (x >> 16u64) as u8 == (y >> 16u64) as u8,
            (x >> 24u64) as u8 == (y >> 24u64) as u8,
            (x >> 32u64) as u8 == (y >> 32u64) as u8,
            (x >> 40u64) as u8 == (y >> 40u64) as u8,
            (x >> 48u64) as u8 == (y >> 48u64) as u8,
            (x >> 56u64) as u8 == (y >> 56u64) as u8,
    ;
}

/// Each cell contributes three chunks, in order.
proof fn lemma_cell_chunks_layout(s: Seq<(u64, usize, usize)>)
    ensures
        cell_chunks(s).len() == 3 * s.len(),
        forall|j: int| 0 <= j < s.len() ==> #[trigger] cell_chunks(s)[3 * j] == le_bytes(s[j].0)
            && cell_chunks(s)[3 * j + 1] == le_bytes(s[j].1 as u64)
            && cell_chunks(s)[3 * j + 2] == le_bytes(s[j].2 as u64),
    decreases s.len(),
{
    if s.len() > 0 {
        let t = s.drop_last();
        lemma_cell_chunks_layout(t);
        assert forall|j: int| 0 <= j < s.len() implies #[trigger] cell_chunks(s)[3 * j] == le_bytes(s[j].0)
            && cell_chunks(s)[3 * j + 1] == le_bytes(s[j].1 as u64)
            && cell_chunks(s)[3 * j + 2] == le_bytes(s[j].2 as u64) by {
            if j < t.len() {
                assert(cell_chunks(t)[3 * j] == le_bytes(t[j].0));
            }
        }
    }
}

/// The chunks of two lists of rows are the chunks of each, in order.
proof fn lemma_rows_chunks_split(m: Map<u64, WorkspaceView>, a: Seq<u64>, b: Seq<u64>)
    ensures
        rows_chunks(m, a + b) == rows_chunks(m, a) + rows_chunks(m, b),
    decreases b.len(),
{
    if b.len() == 0 {
        assert(a + b =~= a);
        assert(rows_chunks(m, a) + rows_chunks(m, b) =~= rows_chunks(m, a));
    } else {
        lemma_rows_chunks_split(m, a, b.drop_last());
        assert((a + b).drop_last() =~= a + b.drop_last());
        assert((a + b).last() == b.last());
        assert(rows_chunks(m, a + b) =~= rows_chunks(m, a) + rows_chunks(m, b));
    }
}

/// The keyed cells of a finite map of windows are finite, and their sorted
/// listing lists them in increasing order.
proof fn lemma_sorted_keyed_cells(w: Map<u64, Window>)
    requires
        w.dom().finite(),
    ensures
        keyed_cells(w).finite(),
        sorted_keyed_cells(w).to_set() == keyed_cells(w),
        strictly_sorted(sorted_keyed_cells(w), quad_order()),
        sorted_keyed_cells(w).len() == keyed_cells(w).len(),
{
    let f = |k: u64| (w[k].id, w[k].column_index, w[k].window_index, k);
    assert(keyed_cells(w) =~= w.dom().map(f));
    w.dom().lemma_map_finite(f);
    let l = crate::order::lemma_sorted_listing_exists(keyed_cells(w), quad_order());
    assert(l.to_set() == keyed_cells(w) && strictly_sorted(l, quad_order()));
    let s = sorted_keyed_cells(w);
    lemma_sorted_no_duplicates(s, quad_order());
    s.unique_seq_to_set();
}

/// In a map where every window is stored under its own id, different keyed
/// cells give different sorted cells.
proof fn lemma_sorted_cells_differ(w1: Map<u64, Window>, w2: Map<u64, Window>)
    requires
        w1.dom().finite(),
        w2.dom().finite(),
        forall|j: u64| #[trigger] w1.contains_key(j) ==> w1[j].id == j,
        forall|j: u64| #[trigger] w2.contains_key(j) ==> w2[j].id == j,
        keyed_cells(w1) != keyed_cells(w2),
    ensures
        sorted_cells(w1) != sorted_cells(w2),
{
    lemma_sorted_keyed_cells(w1);
    lemma_sorted_keyed_cells(w2);
    let (l1, l2) = (sorted_keyed_cells(w1), sorted_keyed_cells(w2));
    if sorted_cells(w1) == sorted_cells(w2) {
        assert(sorted_cells(w1).len() == l1.len());
        assert(sorted_cells(w2).len() == l2.len());
        assert(l1.len() == l2.len());
        assert forall|j: int| 0 <= j < l1.len() implies l1[j] == l2[j] by {
            assert(l1.to_set().contains(l1[j]));
            assert(l2.to_set().contains(l2[j]));
            assert(sorted_cells(w1)[j] == sorted_cells(w2)[j]);
        }
        assert(l1 =~= l2);
        assert(false);
    }
}

/// The chunks of a single row.
proof fn lemma_rows_chunks_single(m: Map<u64, WorkspaceView>, k: u64)
    ensures
        rows_chunks(m, seq![k]) == row_chunks(m[k]),
{
    let s = seq![k];
    assert(s.drop_last() =~= Seq::<u64>::empty());
    assert(s.last() == k);
    assert(rows_chunks(m, Seq::<u64>::empty()) == Seq::<Seq<u8>>::empty());
    assert(rows_chunks(m, s) == rows_chunks(m, s.drop_last()) + row_chunks(m[k]));
    assert(rows_chunks(m, s) =~= row_chunks(m[k]));
}

/// The workspaces with window `id` of workspace `k` moved to column
/// `column`.
pub open spec fn with_window_in_column(m: Map<u64, WorkspaceView>, k: u64, id: u64, column: usize) -> Map<u64, WorkspaceView> {
    m.insert(k, moved_to_column(m[k], id, column))
}

/// The workspace with window `id` moved to column `column`.
pub open spec fn moved_to_column(w: WorkspaceView, id: u64, column: usize) -> WorkspaceView {
    WorkspaceView {
        windows: w.windows.insert(id, Window { column_index: column, ..w.windows[id] }),
        ..w
    }
}

/// Moving a window to another column changes the row's chunks at some
/// position both have.
proof fn lemma_moved_row_differs(a: WorkspaceView, id: u64, column: usize) -> (p: int)
    requires
        a.windows.dom().finite(),
        forall|j: u64| #[trigger] a.windows.contains_key(j) ==> a.windows[j].id == j,
        a.windows.contains_key(id),
        a.windows[id].column_index != column,
    ensures
        0 <= p < row_chunks(a).len(),
        p < row_chunks(moved_to_column(a, id, column)).len(),
        row_chunks(a)[p] != row_chunks(moved_to_column(a, id, column))[p],
{
    let b = moved_to_column(a, id, column);
    let (w1, w2) = (a.windows, b.windows);
    let c1 = window_cell(w1[id]);
    let q1 = (c1.0, c1.1, c1.2, id);
    let q2 = (c1.0, column, c1.2, id);
    assert(keyed_cells(w1).contains(q1));
    assert(!keyed_cells(w2).contains(q1));
    assert forall|j: u64| #[trigger] w2.contains_key(j) implies w2[j].id == j by {
        assert(w1.contains_key(j));
    }
    assert(w2.dom() =~= w1.dom());
    lemma_sorted_cells_differ(w1, w2);
    lemma_sorted_keyed_cells(w1);
    lemma_sorted_keyed_cells(w2);
    assert(keyed_cells(w2) =~= keyed_cells(w1).remove(q1).insert(q2));
    assert(!keyed_cells(w1).remove(q1).contains(q2));
    let (s1, s2) = (sorted_cells(w1), sorted_cells(w2));
    assert(s1.len() == s2.len());
    assert(exists|j: int| 0 <= j < s1.len() && s1[j] != s2[j]) by {
        if forall|j: int| 0 <= j < s1.len() ==> s1[j] == s2[j] {
            assert(s1 =~= s2);
        }
    }
    let j = choose|j: int| 0 <= j < s1.len() && s1[j] != s2[j];
    lemma_cell_chunks_layout(s1);
    lemma_cell_chunks_layout(s2);
    let p: int = if s1[j].0 != s2[j].0 {
        3 * j
    } else if s1[j].1 != s2[j].1 {
        3 * j + 1
    } else {
        3 * j + 2
    };
    assert(cell_chunks(s1)[3 * j] == le_bytes(s1[j].0));
    assert(cell_chunks(s2)[3 * j] == le_bytes(s2[j].0));
    assert(cell_chunks(s1)[p] != cell_chunks(s2)[p]) by {
        if cell_chunks(s1)[p] == cell_chunks(s2)[p] {
            if p == 3 * j {
                lemma_le_bytes_injective(s1[j].0, s2[j].0);
            } else if p == 3 * j + 1 {
                lemma_le_bytes_injective(s1[j].1 as u64, s2[j].1 as u64);
            } else {
                lemma_le_bytes_injective(s1[j].2 as u64, s2[j].2 as u64);
            }
        }
    }
    assert(row_chunks(a)[3 + p] == cell_chunks(s1)[p]);
    assert(row_chunks(b)[3 + p] == cell_chunks(s2)[p]);
    3 + p
}

/// Moving a window of a shown row to another column changes what the layout
/// signature hashes (every window of that workspace being stored under its
/// own id), so the widget measures itself again unless the hash collides.
pub proof fn law_column_move_changes_signature_input(
    m: Map<u64, WorkspaceView>,
    k: u64,
    id: u64,
    column: usize,
    output: Seq<char>,
    mode: WorkspaceMode,
)
    requires
        m.dom().finite(),
        m.contains_key(k),
        m[k].windows.dom().finite(),
        forall|j: u64| #[trigger] m[k].windows.contains_key(j) ==> m[k].windows[j].id == j,
        m[k].windows.contains_key(id),
        m[k].windows[id].column_index != column,
        shown_keys(m, output, mode).contains(k),
    ensures
        signature_chunks(m, output, mode) != signature_chunks(with_window_in_column(m, k, id, column), output, mode),
{
    let m2 = with_window_in_column(m, k, id, column);
    assert(m2.dom() =~= m.dom());
    assert forall|j: u64| m.contains_key(j) implies same_rows(m[j], m2[j]) by {
        if j == k {
            assert(m2[k].windows.dom() =~= m[k].windows.dom());
        }
    }
    lemma_shown_keys_congruent(m, m2, output, mode);
    let ks = shown_keys(m, output, mode);
    ks.index_of_first_ensures(k);
    let i = ks.index_of_first(k)->0;
    let pre = ks.take(i);
    let post = ks.skip(i + 1);
    assert(ks =~= pre + (seq![k] + post));
    assert(!pre.contains(k)) by {
        if pre.contains(k) {
            let t = pre.index_of(k);
            assert(ks[t] == k);
        }
    }
    lemma_rows_chunks_split(m, pre, seq![k] + post);
    lemma_rows_chunks_split(m, seq![k], post);
    lemma_rows_chunks_split(m2, pre, seq![k] + post);
    lemma_rows_chunks_split(m2, seq![k], post);
    lemma_rows_chunks_single(m, k);
    lemma_rows_chunks_single(m2, k);
    assert forall|j: u64| pre.contains(j) implies arrangement(m[j]) == arrangement(m2[j]) by {
        assert(j != k);
    }
    lemma_rows_chunks_congruent(m, m2, pre);
    let p = lemma_moved_row_differs(m[k], id, column);
    let x = signature_chunks(m, output, mode);
    let y = signature_chunks(m2, output, mode);
    let base = 1 + rows_chunks(m, pre).len();
    assert(x[base + p] == row_chunks(m[k])[p]);
    assert(y[base + p] == row_chunks(m2[k])[p]);
}

/// A row appearing or disappearing changes what the layout signature
/// hashes: it starts with the number of rows shown.
pub proof fn law_row_count_change_changes_signature_input(
    a: Map<u64, WorkspaceView>,
    b: Map<u64, WorkspaceView>,
    output: Seq<char>,
    mode: WorkspaceMode,
)
    requires
        shown_keys(a, output, mode).len() != shown_keys(b, output, mode).len(),
        shown_keys(a, output, mode).len() <= u64::MAX,
        shown_keys(b, output, mode).len() <= u64::MAX,
    ensures
        signature_chunks(a, output, mode) != signature_chunks(b, output, mode),
{
    let (na, nb) = (shown_keys(a, output, mode).len(), shown_keys(b, output, mode).len());
    assert(signature_chunks(a, output, mode)[0] == le_bytes(na as u64));
    assert(signature_chunks(b, output, mode)[0] == le_bytes(nb as u64));
    if le_bytes(na as u64) == le_bytes(nb as u64) {
        lemma_le_bytes_injective(na as u64, nb as u64);
    }
}

/// In `all` mode an output shows exactly its workspaces that hold a window
/// or are active: an empty active workspace gets a row, an empty inactive
/// one does not, and workspaces of other outputs never do.
pub proof fn law_all_mode_rows(m: Map<u64, WorkspaceView>, output: Seq<char>, k: u64)
    requires
        m.dom().finite(),
    ensures
        shown_keys(m, output, WorkspaceMode::All).contains(k) <==> (m.contains_key(k)
            && crate::model::on_output(m[k], output)
            && (m[k].is_active || exists|w: u64| m[k].windows.contains_key(w))),
{
    lemma_display_order_exists(m);
    let d = display_order(m);
    let on = |j: u64| crate::model::on_output(m[j], output);
    let shows = |j: u64| shows_row(m[j]);
    let oo = output_order(m, output);
    lemma_output_order_keys(m, output);
    if m.contains_key(k) && crate::model::on_output(m[k], output)
        && (m[k].is_active || exists|w: u64| m[k].windows.contains_key(w)) {
        assert(d.to_set().contains(k));
        let i = d.index_of(k);
        d.lemma_filter_contains(on, i);
        assert(on(d[i]));
        assert(oo.contains(k));
        let t = oo.index_of(k);
        if !m[k].is_active {
            let w = choose|w: u64| m[k].windows.contains_key(w);
            assert(m[k].windows.dom().contains(w));
        }
        assert(shows(oo[t]));
        oo.lemma_filter_contains(shows, t);
        assert(shown_keys(m, output, WorkspaceMode::All).contains(k));
    }
    if shown_keys(m, output, WorkspaceMode::All).contains(k) {
        oo.lemma_filter_contains_rev(shows, k);
        d.lemma_filter_contains_rev(on, k);
        assert(m.contains_key(k));
        if !m[k].is_active {
            assert(!m[k].windows.dom().is_empty());
            let w = m[k].windows.dom().choose();
            assert(m[k].windows.contains_key(w));
        }
    }
}

/// The first active key of a list is one of its members.
proof fn lemma_first_active_member(m: Map<u64, WorkspaceView>, ks: Seq<u64>)
    ensures
        first_active(m, ks) matches Some(k) ==> ks.contains(k),
    decreases ks.len(),
{
    if ks.len() > 0 {
        lemma_first_active_member(m, ks.drop_first());
        if let Some(k) = first_active(m, ks.drop_first()) {
            let i = ks.drop_first().index_of(k);
            assert(ks[i + 1] == k);
        }
        assert(ks[0] == ks[0]);
    }
}

/// Whether window `k` of the map is tiled in column `c`.
pub open spec fn tiled_in(ws: Map<u64, Window>, k: u64, c: usize) -> bool {
    ws.contains_key(k) && !ws[k].is_floating && ws[k].column_index == c
}

/// Whether column `c` holds a tiled window.
pub open spec fn column_used(ws: Map<u64, Window>, c: usize) -> bool {
    exists|k: u64| #[trigger] tiled_in(ws, k, c)
}

/// Order of windows within a column: top to bottom by their index in the
/// column, ties broken by key.
pub open spec fn in_column_lt(ws: Map<u64, Window>) -> spec_fn(u64, u64) -> bool {
    |a: u64, b: u64| ws[a].window_index < ws[b].window_index || (ws[a].window_index == ws[b].window_index && a < b)
}

/// The tiled windows of column `c`.
pub open spec fn column_members(ws: Map<u64, Window>, c: usize) -> Set<u64> {
    Set::new(|k: u64| tiled_in(ws, k, c))
}

/// Whether `cols` lists the columns holding tiled windows left to right,
/// each with its tiled windows top to bottom.
pub open spec fn is_column_listing(ws: Map<u64, Window>, cols: Seq<(usize, Seq<u64>)>) -> bool {
    &&& forall|i: int, j: int| 0 <= i < j < cols.len() ==> cols[i].0 < cols[j].0
    &&& forall|c: usize| column_used(ws, c) <==> exists|i: int| 0 <= i < cols.len() && (#[trigger] cols[i]).0 == c
    &&& forall|i: int| 0 <= i < cols.len() ==> (#[trigger] cols[i]).1.to_set() == column_members(ws, cols[i].0)
        && strictly_sorted(cols[i].1, in_column_lt(ws))
}

/// The view of a column listing.
pub open spec fn columns_view(cols: Seq<(usize, Vec<u64>)>) -> Seq<(usize, Seq<u64>)> {
    cols.map_values(|p: (usize, Vec<u64>)| (p.0, p.1@))
}

/// Whether `a` is less than `b`.
fn usize_less(a: usize, b: usize) -> (r: bool)
    ensures
        r == (a < b),
{
    a < b
}

/// Lexicographic order of (index in column, key) pairs.
pub open spec fn slot_lt(a: (usize, u64), b: (usize, u64)) -> bool {
    a.0 < b.0 || (a.0 == b.0 && a.1 < b.1)
}

/// Whether `a` sorts before `b` in [`slot_lt`].
fn slot_less(a: (usize, u64), b: (usize, u64)) -> (r: bool)
    ensures
        r == slot_lt(a, b),
{
    a.0 < b.0 || (a.0 == b.0 && a.1 < b.1)
}

/// Whether the list holds the value.
fn has_usize(v: &Vec<usize>, x: usize) -> (b: bool)
    ensures
        b == v@.contains(x),
{
    let mut i: usize = 0;
    while i < v.len()
        invariant
            i <= v@.len(),
            forall|j: int| 0 <= j < i ==> v@[j] != x,
        decreases v@.len() - i,
    {
        if v[i] == x {
            return true;
        }
        i += 1;
    }
    false
}

/// The tiled windows of one column, top to bottom.
fn column_keys(ws: &Workspace, keys: &Vec<u64>, c: usize) -> (r: Vec<u64>)
    requires
        keys@.no_duplicates(),
        keys@.to_set() == ws@.windows.dom(),
    ensures
        r@.to_set() == column_members(ws@.windows, c),
        strictly_sorted(r@, in_column_lt(ws@.windows)),
{
    let ghost m = ws@.windows;
    let mut slots: Vec<(usize, u64)> = Vec::new();
    let mut i: usize = 0;
    while i < keys.len()
        invariant
            i <= keys@.len(),
            m == ws@.windows,
            keys@.no_duplicates(),
            keys@.to_set() == m.dom(),
            slots@.no_duplicates(),
            forall|q: (usize, u64)| slots@.contains(q) <==>
                (exists|t: int| 0 <= t < i && #[trigger] keys@[t] == q.1) && tiled_in(m, q.1, c) && q.0 == m[q.1].window_index,
        decreases keys@.len() - i,
    {
        proof {
            assert(keys@.to_set().contains(keys@[i as int]));
        }
        let k = keys[i];
        let w = ws.windows.get(&k).unwrap();
        let ghost before = slots@;
        if !w.is_floating && w.column_index == c {
            slots.push((w.window_index, k));
            proof {
                assert forall|x: int, y: int| 0 <= x < slots@.len() && 0 <= y < slots@.len() && x != y
                    implies slots@[x] != slots@[y] by {
                    if y == before.len() && before.contains(slots@[x]) && x < before.len() {
                        let t = choose|t: int| 0 <= t < i && #[trigger] keys@[t] == slots@[x].1;
                        assert(keys@[t] != keys@[i as int]);
                    }
                    if x == before.len() && y < before.len() {
                        assert(before.contains(slots@[y]));
                        let t = choose|t: int| 0 <= t < i && #[trigger] keys@[t] == slots@[y].1;
                        assert(keys@[t] != keys@[i as int]);
                    }
                }
            }
        }
        proof {
            assert forall|q: (usize, u64)| slots@.contains(q) <==>
                (exists|t: int| 0 <= t < i + 1 && #[trigger] keys@[t] == q.1) && tiled_in(m, q.1, c) && q.0 == m[q.1].window_index by {
                if slots@.contains(q) && !before.contains(q) {
                    assert(keys@[i as int] == q.1);
                }
                if (exists|t: int| 0 <= t < i + 1 && #[trigger] keys@[t] == q.1) && tiled_in(m, q.1, c) && q.0 == m[q.1].window_index {
                    let t = choose|t: int| 0 <= t < i + 1 && #[trigger] keys@[t] == q.1;
                    if t == i {
                        assert(slots@.last() == q);
                    } else {
                        assert(before.contains(q));
                        let x = before.index_of(q);
                        assert(slots@[x] == q);
                    }
                } else if slots@.contains(q) {
                    if before.contains(q) {
                        let t = choose|t: int| 0 <= t < i && #[trigger] keys@[t] == q.1;
                        assert(keys@[t] == q.1);
                    }
                }
            }
        }
        i += 1;
    }
    let ghost slot_set = slots@.to_set();
    proof {
        assert forall|q: (usize, u64)| slot_set.contains(q) <==> tiled_in(m, q.1, c) && q.0 == m[q.1].window_index by {
            if tiled_in(m, q.1, c) {
                assert(keys@.to_set().contains(q.1));
                let t = keys@.index_of(q.1);
                assert(keys@[t] == q.1);
            }
        }
    }
    let sorted = crate::order::sort_strict(slots, Ghost(|a: (usize, u64), b: (usize, u64)| slot_lt(a, b)), slot_less);
    let mut r: Vec<u64> = Vec::new();
    let mut j: usize = 0;
    while j < sorted.len()
        invariant
            j <= sorted@.len(),
            m == ws@.windows,
            sorted@.to_set() == slot_set,
            forall|q: (usize, u64)| slot_set.contains(q) <==> tiled_in(m, q.1, c) && q.0 == m[q.1].window_index,
            strictly_sorted(sorted@, |a: (usize, u64), b: (usize, u64)| slot_lt(a, b)),
            r@ == sorted@.take(j as int).map_values(|q: (usize, u64)| q.1),
        decreases sorted@.len() - j,
    {
        r.push(sorted[j].1);
        proof {
            assert(sorted@.take(j + 1).map_values(|q: (usize, u64)| q.1) =~= sorted@.take(j as int).map_values(|q: (usize, u64)| q.1).push(sorted@[j as int].1));
        }
        j += 1;
    }
    proof {
        assert(sorted@.take(sorted@.len() as int) =~= sorted@);
        assert forall|x: int| 0 <= x < sorted@.len() implies (#[trigger] sorted@[x]).0 == m[sorted@[x].1].window_index
            && tiled_in(m, sorted@[x].1, c) by {
            assert(sorted@.to_set().contains(sorted@[x]));
        }
        assert forall|x: int, y: int| 0 <= x < y < r@.len() implies in_column_lt(m)(r@[x], r@[y]) by {
            assert(slot_lt(sorted@[x], sorted@[y]));
        }
        assert forall|k: u64| r@.to_set().contains(k) <==> column_members(m, c).contains(k) by {
            if r@.to_set().contains(k) {
                let x = r@.index_of(k);
                assert(sorted@[x].1 == k);
            }
            if column_members(m, c).contains(k) {
                let q = (m[k].window_index, k);
                assert(slot_set.contains(q));
                let x = sorted@.index_of(q);
                assert(r@[x] == k);
            }
        }
        assert(r@.to_set() =~= column_members(m, c));
    }
    r
}

/// The columns of a workspace that hold tiled windows, left to right, each
/// with its tiled windows top to bottom (floating windows are left out).
pub fn tiled_columns(ws: &Workspace) -> (cols: Vec<(usize, Vec<u64>)>)
    ensures
        is_column_listing(ws@.windows, columns_view(cols@)),
{
    let ghost m = ws@.windows;
    let keys = map_keys(&ws.windows);
    let mut used: Vec<usize> = Vec::new();
    let mut i: usize = 0;
    while i < keys.len()
        invariant
            i <= keys@.len(),
            m == ws@.windows,
            keys@.to_set() == m.dom(),
            used@.no_duplicates(),
            forall|c: usize| used@.contains(c) ==> column_used(m, c),
            forall|t: int| 0 <= t < i && !m[#[trigger] keys@[t]].is_floating ==> used@.contains(m[keys@[t]].column_index),
        decreases keys@.len() - i,
    {
        proof {
            assert(keys@.to_set().contains(keys@[i as int]));
        }
        let w = ws.windows.get(&keys[i]).unwrap();
        let ghost before = used@;
        if !w.is_floating {
            if !has_usize(&used, w.column_index) {
                used.push(w.column_index);
                proof {
                    assert(tiled_in(m, keys@[i as int], w.column_index));
                    assert(used@[before.len() as int] == w.column_index);
                }
            }
        }
        proof {
            assert forall|t: int| 0 <= t < i + 1 && !m[#[trigger] keys@[t]].is_floating implies
                used@.contains(m[keys@[t]].column_index) by {
                if t < i {
                    let x = before.index_of(m[keys@[t]].column_index);
                    assert(used@[x] == before[x]);
                }
            }
        }
        i += 1;
    }
    proof {
        assert forall|c: usize| column_used(m, c) implies used@.contains(c) by {
            let k = choose|k: u64| #[trigger] tiled_in(m, k, c);
            assert(keys@.to_set().contains(k));
            let t = keys@.index_of(k);
            assert(keys@[t] == k);
        }
    }
    let ghost used_set = used@.to_set();
    let sorted = crate::order::sort_strict(used, Ghost(|a: usize, b: usize| a < b), usize_less);
    let mut cols: Vec<(usize, Vec<u64>)> = Vec::new();
    let mut j: usize = 0;
    while j < sorted.len()
        invariant
            j <= sorted@.len(),
            m == ws@.windows,
            keys@.no_duplicates(),
            keys@.to_set() == m.dom(),
            sorted@.to_set() == used_set,
            forall|c: usize| used_set.contains(c) <==> column_used(m, c),
            strictly_sorted(sorted@, |a: usize, b: usize| a < b),
            cols@.len() == j,
            forall|x: int| 0 <= x < j ==> (#[trigger] cols@[x]).0 == sorted@[x]
                && cols@[x].1@.to_set() == column_members(m, sorted@[x])
                && strictly_sorted(cols@[x].1@, in_column_lt(m)),
        decreases sorted@.len() - j,
    {
        let c = sorted[j];
        let ks = column_keys(ws, &keys, c);
        cols.push((c, ks));
        j += 1;
    }
    proof {
        let v = columns_view(cols@);
        assert forall|x: int, y: int| 0 <= x < y < v.len() implies v[x].0 < v[y].0 by {
            assert(cols@[x].0 == sorted@[x] && cols@[y].0 == sorted@[y]);
        }
        assert forall|c: usize| column_used(m, c) <==> exists|x: int| 0 <= x < v.len() && (#[trigger] v[x]).0 == c by {
            if column_used(m, c) {
                assert(sorted@.to_set().contains(c));
                let x = sorted@.index_of(c);
                assert(v[x].0 == c);
            }
            if exists|x: int| 0 <= x < v.len() && (#[trigger] v[x]).0 == c {
                let x = choose|x: int| 0 <= x < v.len() && (#[trigger] v[x]).0 == c;
                assert(cols@[x].0 == sorted@[x]);
                assert(sorted@.to_set().contains(sorted@[x]));
            }
        }
        assert forall|x: int| 0 <= x < v.len() implies (#[trigger] v[x]).1.to_set() == column_members(m, v[x].0)
            && strictly_sorted(v[x].1, in_column_lt(m)) by {
            assert(cols@[x].0 == sorted@[x]);
        }
    }
    cols
}

/// Whether the widget is measured again after a state change: always while
/// Overview is closed, and during Overview only when the arrangement's
/// signature differs from the one it was last measured with.
pub open spec fn remeasure_needed(overview_open: bool, signature: u64, last_signature: u64) -> bool {
    !overview_open || signature != last_signature
}

/// Decide whether to measure the widget again.
pub fn needs_remeasure(overview_open: bool, signature: u64, last_signature: u64) -> (b: bool)
    ensures
        b == remeasure_needed(overview_open, signature, last_signature),
{
    !overview_open || signature != last_signature
}

/// While Overview is open, a change that keeps the arrangement (tile sizes
/// animating, windows refocused or retitled) never makes the widget measure
/// itself again.
pub proof fn law_overview_animation_keeps_size(
    before: Map<u64, WorkspaceView>,
    after: Map<u64, WorkspaceView>,
    output: Seq<char>,
    mode: WorkspaceMode,
)
    requires
        before.dom().finite(),
        before.dom() == after.dom(),
        forall|k: u64| before.contains_key(k) ==> arrangement(before[k]) == arrangement(after[k]),
    ensures
        !remeasure_needed(
            true,
            DefaultHasher::spec_finish(signature_chunks(after, output, mode)),
            DefaultHasher::spec_finish(signature_chunks(before, output, mode)),
        ),
{
    law_signature_depends_only_on_arrangement(before, after, output, mode);
}

/// Whether a window is drawn highlighted: it is focused, or Overview is open
/// and it is the remembered window of the active workspace.
pub open spec fn highlighted(ws: WorkspaceView, window: Window, overview_open: bool) -> bool {
    window.is_focused || (overview_open && ws.is_active && ws.active_window_id == Some(window.id))
}

/// Decide whether a window of a workspace is drawn highlighted.
pub fn window_highlighted(ws: &Workspace, window: &Window, overview_open: bool) -> (b: bool)
    ensures
        b == highlighted(ws@, *window, overview_open),
{
    window.is_focused || (overview_open && ws.is_active && match ws.active_window_id {
        Some(id) => id == window.id,
        None => false,
    })
}

/// The first active key of a list is active, and a list with an active
/// key has a first one.
proof fn lemma_first_active_found(m: Map<u64, WorkspaceView>, ks: Seq<u64>)
    ensures
        first_active(m, ks) matches Some(k) ==> m[k].is_active,
        (exists|i: int| 0 <= i < ks.len() && #[trigger] m[ks[i]].is_active) ==> first_active(m, ks) is Some,
    decreases ks.len(),
{
    if ks.len() > 0 {
        lemma_first_active_found(m, ks.drop_first());
        if !m[ks[0]].is_active && exists|i: int| 0 <= i < ks.len() && #[trigger] m[ks[i]].is_active {
            let i = choose|i: int| 0 <= i < ks.len() && #[trigger] m[ks[i]].is_active;
            assert(i > 0);
            assert(ks.drop_first()[i - 1] == ks[i]);
        }
    }
}

/// In `current` mode an output shows at most one row, that of one of its
/// active workspaces, and shows one whenever it has an active workspace.
pub proof fn law_current_mode_row(m: Map<u64, WorkspaceView>, output: Seq<char>)
    requires
        m.dom().finite(),
    ensures
        shown_keys(m, output, WorkspaceMode::Current).len() <= 1,
        forall|k: u64| shown_keys(m, output, WorkspaceMode::Current).contains(k) ==> m.contains_key(k)
            && crate::model::on_output(m[k], output) && m[k].is_active,
        (exists|k: u64| m.contains_key(k) && crate::model::on_output(m[k], output) && #[trigger] m[k].is_active)
            ==> shown_keys(m, output, WorkspaceMode::Current).len() == 1,
{
    lemma_display_order_exists(m);
    let d = display_order(m);
    let on = |j: u64| crate::model::on_output(m[j], output);
    let oo = output_order(m, output);
    lemma_output_order_keys(m, output);
    lemma_first_active_found(m, oo);
    lemma_first_active_member(m, oo);
    if let Some(k) = first_active(m, oo) {
        d.lemma_filter_contains_rev(on, k);
        let i = oo.index_of(k);
        d.lemma_filter_pred(on, i);
        assert(shown_keys(m, output, WorkspaceMode::Current) == seq![k]);
        assert forall|x: u64| shown_keys(m, output, WorkspaceMode::Current).contains(x) implies x == k by {
            assert(seq![k].contains(x));
        }
    }
    if exists|k: u64| m.contains_key(k) && crate::model::on_output(m[k], output) && #[trigger] m[k].is_active {
        let k = choose|k: u64| m.contains_key(k) && crate::model::on_output(m[k], output) && #[trigger] m[k].is_active;
        assert(d.to_set().contains(k));
        let i = d.index_of(k);
        d.lemma_filter_contains(on, i);
        let t = oo.index_of(k);
        assert(m[oo[t]].is_active);
    }
}

/// In `all` mode the rows are listed by workspace index.
pub proof fn law_all_mode_rows_by_index(m: Map<u64, WorkspaceView>, output: Seq<char>, i: int, j: int)
    requires
        m.dom().finite(),
        0 <= i < j < shown_keys(m, output, WorkspaceMode::All).len(),
    ensures
        m[shown_keys(m, output, WorkspaceMode::All)[i]].idx <= m[shown_keys(m, output, WorkspaceMode::All)[j]].idx,
{
    lemma_display_order_exists(m);
    let oo = output_order(m, output);
    let shows = |k: u64| shows_row(m[k]);
    let sk = shown_keys(m, output, WorkspaceMode::All);
    let d = display_order(m);
    let on = |j: u64| crate::model::on_output(m[j], output);
    crate::order::lemma_filter_sorted(d, crate::model::ws_key_lt(m), on);
    crate::order::lemma_filter_sorted(oo, crate::model::ws_key_lt(m), shows);
    lemma_output_order_keys(m, output);
    assert(sk.contains(sk[i]));
    assert(sk.contains(sk[j]));
    oo.lemma_filter_contains_rev(shows, sk[i]);
    oo.lemma_filter_contains_rev(shows, sk[j]);
    let a = oo.index_of(sk[i]);
    let b = oo.index_of(sk[j]);
    assert(crate::model::ws_key_lt(m)(sk[i], sk[j]));
    assert(a != b);
    if a < b {
        crate::model::law_output_order_by_index(m, output, a, b);
    } else {
        crate::model::law_output_order_by_index(m, output, b, a);
        assert(crate::model::ws_key_lt(m)(sk[j], sk[i]));
        crate::model::lemma_ws_key_lt_order(m, sk[i], sk[j], sk[i]);
    }
}

/// Whether a window is highlighted: a focused window always is; while
/// Overview is closed only the focused window is; while it is open the
/// remembered window of the active workspace is too.
pub proof fn law_highlight(ws: WorkspaceView, window: Window, overview_open: bool)
    ensures
        window.is_focused ==> highlighted(ws, window, overview_open),
        !overview_open ==> (highlighted(ws, window, overview_open) == window.is_focused),
        !ws.is_active ==> (highlighted(ws, window, overview_open) == window.is_focused),
        (overview_open && ws.is_active && ws.active_window_id == Some(window.id)) ==> highlighted(ws, window, overview_open),
        ws.active_window_id != Some(window.id) ==> (highlighted(ws, window, overview_open) == window.is_focused),
{
}

/// While Overview is closed the widget is measured after every change;
/// while it is open, exactly when the signature moved.
pub proof fn law_remeasure(signature: u64, last_signature: u64)
    ensures
        remeasure_needed(false, signature, last_signature),
        remeasure_needed(true, signature, last_signature) == (signature != last_signature),
{
}

} // verus!
