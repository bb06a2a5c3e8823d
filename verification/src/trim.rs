//! The budget trimmer: keeps the highest-importance cells whose
//! estimated token costs fit the configured budget, then emits them in
//! original document order.
//!
//! Selection sweeps the importance levels from 100 down to 0 and, inside
//! one level, the cells in document order — so a tie on importance is
//! broken in favour of the earlier cell. The sweep stops at the first
//! cell whose cost would push the running total over the budget.

use vstd::prelude::*;
use vstd::pervasive::VecAdditionalExecFns;

use crate::document::{
    dict_find_index, dict_has, dict_payload, lemma_dict_find_from_props, CellRecord, DictEntry,
    DictEntryV,
};
use crate::tokens::{est_tokens, estimate_tokens, TokenizerKind};

verus! {

/// The estimated token cost of each cell, resolved through the
/// dictionary.
pub open spec fn costs_spec(
    cells: Seq<CellRecord>,
    dict: Seq<DictEntryV>,
    kind: TokenizerKind,
) -> Seq<u64> {
    Seq::new(
        cells.len(),
        |i: int| est_tokens(dict_payload(dict, cells[i].code_id), kind) as u64,
    )
}

/// Total estimated token cost of a cell sequence.
pub open spec fn total_cost(cells: Seq<CellRecord>, dict: Seq<DictEntryV>, kind: TokenizerKind) -> int
    decreases cells.len(),
{
    if cells.len() == 0 {
        0
    } else {
        total_cost(cells.drop_last(), dict, kind) + est_tokens(
            dict_payload(dict, cells.last().code_id),
            kind,
        )
    }
}

/// The cost of a masked selection equals the selected share of the
/// per-cell costs.
pub proof fn lemma_mask_cost(
    cells: Seq<CellRecord>,
    dict: Seq<DictEntryV>,
    kind: TokenizerKind,
    sel: Seq<bool>,
)
    requires
        sel.len() == cells.len(),
        forall|i: int|
            0 <= i < cells.len() ==> est_tokens(
                dict_payload(dict, (#[trigger] cells[i]).code_id),
                kind,
            ) <= u64::MAX,
    ensures
        total_cost(mask_spec(cells, sel), dict, kind) == sum_sel(
            costs_spec(cells, dict, kind),
            sel,
        ),
    decreases cells.len(),
{
    if cells.len() > 0 {
        assert forall|i: int| 0 <= i < cells.drop_last().len() implies est_tokens(
            dict_payload(dict, (#[trigger] cells.drop_last()[i]).code_id),
            kind,
        ) <= u64::MAX by {
            assert(cells.drop_last()[i] == cells[i]);
        }
        lemma_mask_cost(cells.drop_last(), dict, kind, sel.drop_last());
        let cs = costs_spec(cells, dict, kind);
        let csp = costs_spec(cells.drop_last(), dict, kind);
        assert(cs.drop_last() =~= csp);
        crate::tokens::lemma_est_tokens_bound(dict_payload(dict, cells.last().code_id), kind);
        assert(cs.last() as int == est_tokens(dict_payload(dict, cells.last().code_id), kind));
        if sel.last() {
            assert(mask_spec(cells, sel) == mask_spec(cells.drop_last(), sel.drop_last()).push(
                cells.last(),
            ));
            assert(mask_spec(cells, sel).drop_last() =~= mask_spec(
                cells.drop_last(),
                sel.drop_last(),
            ));
        }
    }
}

/// The estimated token cost of each cell, resolved through the
/// dictionary: a pure function of payload bytes and strategy.
pub fn costs_of_cells(cells: &Vec<CellRecord>, dict: &Vec<DictEntry>, kind: TokenizerKind) -> (r:
    Vec<u64>)
    requires
        forall|i: int|
            0 <= i < cells@.len() ==> dict_has(
                dict@.map_values(|e: DictEntry| e@),
                (#[trigger] cells@[i]).code_id,
            ),
    ensures
        r@.len() == cells@.len(),
        forall|i: int|
            0 <= i < cells@.len() ==> (#[trigger] r@[i]) as int == est_tokens(
                dict_payload(dict@.map_values(|e: DictEntry| e@), cells@[i].code_id),
                kind,
            ),
        r@ == costs_spec(cells@, dict@.map_values(|e: DictEntry| e@), kind),
{
    let ghost dv = dict@.map_values(|e: DictEntry| e@);
    let mut out: Vec<u64> = Vec::new();
    let mut i: usize = 0;
    while i < cells.len()
        invariant
            0 <= i <= cells.len(),
            dv == dict@.map_values(|e: DictEntry| e@),
            out@.len() == i,
            forall|j: int|
                0 <= j < cells@.len() ==> dict_has(dv, (#[trigger] cells@[j]).code_id),
            forall|j: int|
                0 <= j < i ==> (#[trigger] out@[j]) as int == est_tokens(
                    dict_payload(dv, cells@[j].code_id),
                    kind,
                ),
        decreases cells.len() - i,
    {
        let key = cells[i].code_id;
        proof {
            lemma_dict_find_from_props(dv, key, 0);
        }
        let c: u64 = match dict_find_index(dict, key) {
            Some(w) => {
                proof {
                    assert(dv[w as int] == dict@[w as int]@);
                }
                estimate_tokens(&dict[w].payload, kind)
            },
            None => {
                proof {
                    assert(false);
                }
                0
            },
        };
        out.push(c);
        i = i + 1;
    }
    proof {
        assert(out@ =~= costs_spec(cells@, dv, kind));
    }
    out
}

/// The running state of one trimming sweep.
#[verifier::ext_equal]
pub ghost struct TrimStateV {
    pub sel: Seq<bool>,
    pub cum: int,
    pub stopped: bool,
}

/// Selection mask with nothing selected.
pub open spec fn trim_init(n: int) -> TrimStateV {
    TrimStateV { sel: Seq::new(n as nat, |i: int| false), cum: 0, stopped: false }
}

/// One selection decision: cell `j`, considered only on the sweep of its
/// own importance level.
pub open spec fn trim_at(
    cells: Seq<CellRecord>,
    costs: Seq<u64>,
    level: u32,
    budget: u64,
    st: TrimStateV,
    j: int,
) -> TrimStateV {
    if !st.stopped && cells[j].importance == level && !st.sel[j] {
        if st.cum + costs[j] <= budget {
            TrimStateV { sel: st.sel.update(j, true), cum: st.cum + costs[j], stopped: false }
        } else {
            TrimStateV { sel: st.sel, cum: st.cum, stopped: true }
        }
    } else {
        st
    }
}

/// Sweep of one importance level from cell `j` on.
pub open spec fn sweep_from(
    cells: Seq<CellRecord>,
    costs: Seq<u64>,
    level: u32,
    budget: u64,
    st: TrimStateV,
    j: int,
) -> TrimStateV
    decreases cells.len() - j,
{
    if j < 0 || j >= cells.len() {
        st
    } else {
        sweep_from(cells, costs, level, budget, trim_at(cells, costs, level, budget, st, j), j + 1)
    }
}

/// Sweep of the levels `level`, `level - 1`, ..., 0.
pub open spec fn sweep_levels(
    cells: Seq<CellRecord>,
    costs: Seq<u64>,
    level: int,
    budget: u64,
    st: TrimStateV,
) -> TrimStateV
    decreases level + 1,
{
    if level < 0 {
        st
    } else {
        sweep_levels(
            cells,
            costs,
            level - 1,
            budget,
            sweep_from(cells, costs, level as u32, budget, st, 0),
        )
    }
}

/// The selection the trimmer makes.
pub open spec fn trim_spec(cells: Seq<CellRecord>, costs: Seq<u64>, budget: u64) -> TrimStateV {
    sweep_levels(cells, costs, 100, budget, trim_init(cells.len() as int))
}

/// The cells a mask keeps, in original order.
pub open spec fn mask_spec(cells: Seq<CellRecord>, sel: Seq<bool>) -> Seq<CellRecord>
    decreases cells.len(),
{
    if cells.len() == 0 || sel.len() != cells.len() {
        Seq::empty()
    } else if sel.last() {
        mask_spec(cells.drop_last(), sel.drop_last()).push(cells.last())
    } else {
        mask_spec(cells.drop_last(), sel.drop_last())
    }
}

/// Total cost of the selected cells.
pub open spec fn sum_sel(costs: Seq<u64>, sel: Seq<bool>) -> int
    decreases costs.len(),
{
    if costs.len() == 0 || sel.len() != costs.len() {
        0
    } else {
        sum_sel(costs.drop_last(), sel.drop_last()) + if sel.last() {
            costs.last() as int
        } else {
            0int
        }
    }
}

/// Selecting one unselected cell adds exactly its cost.
pub proof fn lemma_sum_sel_update(costs: Seq<u64>, sel: Seq<bool>, j: int)
    requires
        sel.len() == costs.len(),
        0 <= j < sel.len(),
        !sel[j],
    ensures
        sum_sel(costs, sel.update(j, true)) == sum_sel(costs, sel) + costs[j],
    decreases costs.len(),
{
    let n = costs.len() as int;
    if n > 0 {
        if j == n - 1 {
            assert(sel.update(j, true).drop_last() =~= sel.drop_last());
            assert(sel.update(j, true).last());
        } else {
            assert(sel.update(j, true).drop_last() =~= sel.drop_last().update(j, true));
            assert(sel.update(j, true).last() == sel.last());
            lemma_sum_sel_update(costs.drop_last(), sel.drop_last(), j);
        }
    }
}

/// A sweep state whose running total matches its mask and respects the
/// budget keeps doing so.
pub open spec fn trim_state_wf(
    costs: Seq<u64>,
    budget: u64,
    st: TrimStateV,
) -> bool {
    &&& st.sel.len() == costs.len()
    &&& st.cum == sum_sel(costs, st.sel)
    &&& 0 <= st.cum <= budget
}

pub proof fn lemma_trim_at_wf(
    cells: Seq<CellRecord>,
    costs: Seq<u64>,
    level: u32,
    budget: u64,
    st: TrimStateV,
    j: int,
)
    requires
        cells.len() == costs.len(),
        0 <= j < cells.len(),
        trim_state_wf(costs, budget, st),
    ensures
        trim_state_wf(costs, budget, trim_at(cells, costs, level, budget, st, j)),
{
    if !st.stopped && cells[j].importance == level && !st.sel[j] && st.cum + costs[j] <= budget {
        lemma_sum_sel_update(costs, st.sel, j);
    }
}

pub proof fn lemma_sweep_from_wf(
    cells: Seq<CellRecord>,
    costs: Seq<u64>,
    level: u32,
    budget: u64,
    st: TrimStateV,
    j: int,
)
    requires
        cells.len() == costs.len(),
        0 <= j <= cells.len(),
        trim_state_wf(costs, budget, st),
    ensures
        trim_state_wf(costs, budget, sweep_from(cells, costs, level, budget, st, j)),
    decreases cells.len() - j,
{
    if j < cells.len() {
        lemma_trim_at_wf(cells, costs, level, budget, st, j);
        lemma_sweep_from_wf(
            cells,
            costs,
            level,
            budget,
            trim_at(cells, costs, level, budget, st, j),
            j + 1,
        );
    }
}

pub proof fn lemma_sweep_levels_wf(
    cells: Seq<CellRecord>,
    costs: Seq<u64>,
    level: int,
    budget: u64,
    st: TrimStateV,
)
    requires
        cells.len() == costs.len(),
        trim_state_wf(costs, budget, st),
    ensures
        trim_state_wf(costs, budget, sweep_levels(cells, costs, level, budget, st)),
    decreases level + 1,
{
    if level >= 0 {
        lemma_sweep_from_wf(cells, costs, level as u32, budget, st, 0);
        lemma_sweep_levels_wf(
            cells,
            costs,
            level - 1,
            budget,
            sweep_from(cells, costs, level as u32, budget, st, 0),
        );
    }
}

/// The empty selection is well formed, so the whole trim selection
/// respects the budget: the total cost of the kept cells never exceeds
/// it.
pub proof fn lemma_trim_spec_budget(cells: Seq<CellRecord>, costs: Seq<u64>, budget: u64)
    requires
        cells.len() == costs.len(),
    ensures
        trim_state_wf(costs, budget, trim_spec(cells, costs, budget)),
        sum_sel(costs, trim_spec(cells, costs, budget).sel) <= budget,
{
    assert(sum_sel(costs, trim_init(cells.len() as int).sel) == 0) by {
        lemma_sum_sel_all_false(costs, trim_init(cells.len() as int).sel);
    }
    lemma_sweep_levels_wf(cells, costs, 100, budget, trim_init(cells.len() as int));
}

pub proof fn lemma_sum_sel_all_false(costs: Seq<u64>, sel: Seq<bool>)
    requires
        sel.len() == costs.len(),
        forall|i: int| 0 <= i < sel.len() ==> !sel[i],
    ensures
        sum_sel(costs, sel) == 0,
    decreases costs.len(),
{
    if costs.len() > 0 {
        lemma_sum_sel_all_false(costs.drop_last(), sel.drop_last());
    }
}

/// Every kept cell is one of the input cells.
pub proof fn lemma_mask_membership(cells: Seq<CellRecord>, sel: Seq<bool>)
    ensures
        forall|k: int|
            0 <= k < mask_spec(cells, sel).len() ==> exists|j: int|
                0 <= j < cells.len() && #[trigger] mask_spec(cells, sel)[k] == cells[j],
        mask_spec(cells, sel).len() <= cells.len(),
    decreases cells.len(),
{
    if cells.len() > 0 && sel.len() == cells.len() {
        lemma_mask_membership(cells.drop_last(), sel.drop_last());
        let m = mask_spec(cells, sel);
        let mp = mask_spec(cells.drop_last(), sel.drop_last());
        if sel.last() {
            assert(m == mp.push(cells.last()));
        } else {
            assert(m == mp);
        }
        assert(mp.len() <= cells.len() - 1);
        assert forall|k: int| 0 <= k < m.len() implies exists|j: int|
            0 <= j < cells.len() && #[trigger] m[k] == cells[j] by {
            if k < mp.len() {
                let j0 = choose|j: int| 0 <= j < cells.drop_last().len() && mp[k] == cells.drop_last()[j];
                assert(m[k] == cells[j0]);
            } else {
                assert(m[k] == cells[cells.len() - 1]);
            }
        }
    }
}

/// Masking a cell sequence in non-decreasing page order keeps that
/// order.
pub proof fn lemma_mask_sorted(cells: Seq<CellRecord>, sel: Seq<bool>)
    requires
        forall|i: int, j: int| 0 <= i < j < cells.len() ==> cells[i].z <= cells[j].z,
    ensures
        forall|i: int, j: int|
            0 <= i < j < mask_spec(cells, sel).len() ==> mask_spec(cells, sel)[i].z <= mask_spec(
                cells,
                sel,
            )[j].z,
    decreases cells.len(),
{
    if cells.len() > 0 && sel.len() == cells.len() {
        assert forall|i: int, j: int| 0 <= i < j < cells.drop_last().len() implies
            cells.drop_last()[i].z <= cells.drop_last()[j].z by {
            assert(cells.drop_last()[i] == cells[i]);
            assert(cells.drop_last()[j] == cells[j]);
        }
        lemma_mask_sorted(cells.drop_last(), sel.drop_last());
        lemma_mask_membership(cells.drop_last(), sel.drop_last());
        let m = mask_spec(cells, sel);
        let mp = mask_spec(cells.drop_last(), sel.drop_last());
        assert forall|i: int, j: int| 0 <= i < j < m.len() implies m[i].z <= m[j].z by {
            if j < mp.len() {
            } else if sel.last() && j == mp.len() {
                assert(m[j] == cells[cells.len() - 1]);
                let j0 = choose|q: int|
                    0 <= q < cells.drop_last().len() && mp[i] == cells.drop_last()[q];
                assert(m[i] == cells[j0]);
            }
        }
    }
}

/// Trims a cell sequence to a token budget: selection by descending
/// importance (ties to the earlier cell), output restored to original
/// document order, total kept cost never above the budget.
pub fn trim_cells(cells: &Vec<CellRecord>, costs: &Vec<u64>, budget: u64) -> (r: Vec<CellRecord>)
    requires
        cells@.len() == costs@.len(),
    ensures
        r@ == mask_spec(cells@, trim_spec(cells@, costs@, budget).sel),
        sum_sel(costs@, trim_spec(cells@, costs@, budget).sel) <= budget,
{
    proof {
        lemma_trim_spec_budget(cells@, costs@, budget);
    }
    let n = cells.len();
    let mut sel: Vec<bool> = Vec::new();
    let mut k: usize = 0;
    while k < n
        invariant
            0 <= k <= n,
            sel@.len() == k,
            forall|i: int| 0 <= i < k ==> !sel@[i],
        decreases n - k,
    {
        sel.push(false);
        k = k + 1;
    }
    proof {
        assert(sel@ =~= trim_init(cells@.len() as int).sel);
        assert((TrimStateV { sel: sel@, cum: 0int, stopped: false }) =~= trim_init(
            cells@.len() as int,
        ));
        lemma_sum_sel_all_false(costs@, sel@);
    }
    let mut cum: u64 = 0;
    let mut stopped: bool = false;
    let ghost target = trim_spec(cells@, costs@, budget);
    let mut lev: u32 = 101;
    while lev > 0
        invariant
            0 <= lev <= 101,
            cells@.len() == costs@.len(),
            n == cells@.len(),
            trim_state_wf(costs@, budget, TrimStateV { sel: sel@, cum: cum as int, stopped }),
            sweep_levels(
                cells@,
                costs@,
                lev as int - 1,
                budget,
                TrimStateV { sel: sel@, cum: cum as int, stopped },
            ) == target,
        decreases lev,
    {
        lev = lev - 1;
        let ghost st0 = TrimStateV { sel: sel@, cum: cum as int, stopped };
        let mut j: usize = 0;
        while j < n
            invariant
                0 <= j <= n,
                cells@.len() == costs@.len(),
                n == cells@.len(),
                trim_state_wf(costs@, budget, TrimStateV { sel: sel@, cum: cum as int, stopped }),
                sweep_from(
                    cells@,
                    costs@,
                    lev,
                    budget,
                    TrimStateV { sel: sel@, cum: cum as int, stopped },
                    j as int,
                ) == sweep_from(cells@, costs@, lev, budget, st0, 0),
            decreases n - j,
        {
            let ghost stj = TrimStateV { sel: sel@, cum: cum as int, stopped };
            proof {
                lemma_trim_at_wf(cells@, costs@, lev, budget, stj, j as int);
            }
            if !stopped && cells[j].importance == lev && !sel[j] {
                if (cum as u128) + (costs[j] as u128) <= (budget as u128) {
                    sel.set(j, true);
                    cum = cum + costs[j];
                } else {
                    stopped = true;
                }
            }
            proof {
                assert(TrimStateV { sel: sel@, cum: cum as int, stopped } == trim_at(
                    cells@,
                    costs@,
                    lev,
                    budget,
                    stj,
                    j as int,
                ));
            }
            j = j + 1;
        }
    }
    proof {
        assert(TrimStateV { sel: sel@, cum: cum as int, stopped } == target);
    }
    let mut out: Vec<CellRecord> = Vec::new();
    let mut j: usize = 0;
    while j < n
        invariant
            0 <= j <= n,
            n == cells@.len(),
            sel@.len() == n,
            sel@ == target.sel,
            out@ == mask_spec(cells@.take(j as int), sel@.take(j as int)),
        decreases n - j,
    {
        proof {
            assert(cells@.take(j + 1).drop_last() =~= cells@.take(j as int));
            assert(sel@.take(j + 1).drop_last() =~= sel@.take(j as int));
            assert(cells@.take(j + 1).last() == cells@[j as int]);
            assert(sel@.take(j + 1).last() == sel@[j as int]);
        }
        if sel[j] {
            out.push(cells[j]);
        }
        j = j + 1;
    }
    proof {
        assert(cells@.take(n as int) =~= cells@);
        assert(sel@.take(n as int) =~= sel@);
    }
    out
}

} // verus!
