//! Cross-page deduplication over a sliding window of pages, backed by
//! the content-addressed dictionary.
//!
//! For each staged cell in document order the digest of its payload is
//! looked up among the recently seen digests. A match last seen within
//! the window reuses the existing dictionary entry; with footer dropping
//! enabled a matching footer cell is removed from the cell sequence
//! entirely. A match last seen more than `window` pages ago counts as
//! new, independent content. The dictionary keeps one entry per distinct
//! payload, so its size is proportional to distinct content.

use vstd::prelude::*;
use vstd::pervasive::VecAdditionalExecFns;

use crate::document::{
    dict_find, dict_find_index, dict_has, dict_wf, lemma_dict_find_from_props, CellRecord,
    CellType, DictEntry, DictEntryV,
};
use crate::hashing::{hash_payload, hash_seq};
use crate::score::{StagedCell, StagedCellV};

verus! {

/// One entry of the sliding-window state: a digest and the page it was
/// last seen on.
#[derive(Debug, Clone, Copy, PartialEq, Eq, Structural)]
pub struct SeenEntry {
    pub key: u64,
    pub z: u32,
}

/// First index of `key` in the window state at or after `i`, or -1.
pub open spec fn seen_find_from(s: Seq<SeenEntry>, key: u64, i: int) -> int
    decreases s.len() - i,
{
    if i < 0 || i >= s.len() {
        -1
    } else if s[i].key == key {
        i
    } else {
        seen_find_from(s, key, i + 1)
    }
}

/// First index of `key` in the window state, or -1.
pub open spec fn seen_find(s: Seq<SeenEntry>, key: u64) -> int {
    seen_find_from(s, key, 0)
}

/// A found index is a real occurrence, and nothing before it matches.
pub proof fn lemma_seen_find_from_props(s: Seq<SeenEntry>, key: u64, i: int)
    requires
        0 <= i <= s.len(),
    ensures
        seen_find_from(s, key, i) >= 0 ==> {
            &&& i <= seen_find_from(s, key, i) < s.len()
            &&& s[seen_find_from(s, key, i)].key == key
        },
        seen_find_from(s, key, i) < 0 ==> forall|j: int| i <= j < s.len() ==> s[j].key != key,
    decreases s.len() - i,
{
    if i < s.len() && s[i].key != key {
        lemma_seen_find_from_props(s, key, i + 1);
    }
}

/// Finds the first window-state entry holding `key`.
pub fn seen_find_index(seen: &Vec<SeenEntry>, key: u64) -> (r: Option<usize>)
    ensures
        r matches Some(i) ==> seen_find(seen@, key) == i && i < seen@.len() && seen@[i as int].key
            == key,
        r is None ==> seen_find(seen@, key) < 0,
{
    let mut i: usize = 0;
    while i < seen.len()
        invariant
            0 <= i <= seen.len(),
            seen_find_from(seen@, key, 0) == seen_find_from(seen@, key, i as int),
        decreases seen.len() - i,
    {
        if seen[i].key == key {
            proof {
                assert(seen_find_from(seen@, key, i as int) == i);
            }
            return Some(i);
        }
        i = i + 1;
    }
    None
}

/// The running state of one deduplication pass.
#[verifier::ext_equal]
pub ghost struct DedupStateV {
    pub cells: Seq<CellRecord>,
    pub dict: Seq<DictEntryV>,
    pub seen: Seq<SeenEntry>,
    pub hits: int,
}

/// The cell record a staged cell turns into, pointing at `h`.
pub open spec fn cell_of(c: StagedCellV, h: u64) -> CellRecord {
    CellRecord {
        code_id: h,
        cell_type: c.cell_type,
        x: c.x,
        y: c.y,
        w: c.w,
        h: c.h,
        z: c.z,
        importance: c.importance,
    }
}

/// The empty deduplication state.
pub open spec fn dedup_init() -> DedupStateV {
    DedupStateV { cells: Seq::empty(), dict: Seq::empty(), seen: Seq::empty(), hits: 0 }
}

/// One deduplication step over one staged cell.
pub open spec fn dedup_step(
    st: DedupStateV,
    c: StagedCellV,
    window: u32,
    drop_footers: bool,
) -> DedupStateV {
    let h = hash_seq(c.text);
    let si = seen_find(st.seen, h);
    let is_dup = si >= 0 && st.seen[si].z <= c.z && c.z - st.seen[si].z <= window;
    let dropped = is_dup && drop_footers && c.cell_type == CellType::Footer;
    DedupStateV {
        cells: if dropped {
            st.cells
        } else {
            st.cells.push(cell_of(c, h))
        },
        dict: if dict_has(st.dict, h) {
            st.dict
        } else {
            st.dict.push(DictEntryV { key: h, payload: c.text })
        },
        seen: if si >= 0 {
            st.seen.update(si, SeenEntry { key: h, z: c.z })
        } else {
            st.seen.push(SeenEntry { key: h, z: c.z })
        },
        hits: st.hits + if is_dup {
            1int
        } else {
            0int
        },
    }
}

/// The state after deduplicating a whole staged sequence in order.
pub open spec fn dedup_run(cs: Seq<StagedCellV>, window: u32, drop_footers: bool) -> DedupStateV
    decreases cs.len(),
{
    if cs.len() == 0 {
        dedup_init()
    } else {
        dedup_step(dedup_run(cs.drop_last(), window, drop_footers), cs.last(), window, drop_footers)
    }
}

/// A key is in a dictionary exactly when some entry holds it.
pub proof fn lemma_dict_has_iff(d: Seq<DictEntryV>, key: u64)
    ensures
        dict_has(d, key) <==> exists|i: int| 0 <= i < d.len() && d[i].key == key,
{
    lemma_dict_find_from_props(d, key, 0);
    if dict_find(d, key) >= 0 {
        let w = dict_find(d, key);
        assert(0 <= w < d.len() && d[w].key == key);
    }
}

/// Invariants of the deduplication pass: the dictionary stays
/// content-addressed with unique keys, every emitted cell resolves in
/// it, duplicate hits never exceed the input length, a run without hits
/// keeps every cell, the cell sequence never grows beyond the input, and
/// cell order (and the 0..=100 importance range) is preserved.
pub proof fn lemma_dedup_wf(cs: Seq<StagedCellV>, window: u32, drop_footers: bool)
    ensures
        ({
            let st = dedup_run(cs, window, drop_footers);
            &&& dict_wf(st.dict)
            &&& forall|k: int|
                0 <= k < st.cells.len() ==> dict_has(st.dict, #[trigger] st.cells[k].code_id)
            &&& 0 <= st.hits <= cs.len()
            &&& st.cells.len() + st.hits >= cs.len()
            &&& st.cells.len() <= cs.len()
            &&& (st.hits == 0 ==> st.cells.len() == cs.len())
            &&& ((forall|i: int, j: int| 0 <= i < j < cs.len() ==> cs[i].z <= cs[j].z)
                ==> ((forall|i: int, j: int|
                    0 <= i < j < st.cells.len() ==> st.cells[i].z <= st.cells[j].z) && (
                st.cells.len() > 0 && cs.len() > 0 ==> st.cells.last().z <= cs.last().z)))
            &&& ((forall|i: int| 0 <= i < cs.len() ==> (#[trigger] cs[i]).importance <= 100)
                ==> (forall|i: int|
                0 <= i < st.cells.len() ==> (#[trigger] st.cells[i]).importance <= 100))
        }),
    decreases cs.len(),
{
    if cs.len() > 0 {
        let prev = dedup_run(cs.drop_last(), window, drop_footers);
        let st = dedup_run(cs, window, drop_footers);
        lemma_dedup_wf(cs.drop_last(), window, drop_footers);
        let c = cs.last();
        let h = hash_seq(c.text);
        lemma_dict_has_iff(prev.dict, h);
        assert forall|k: int| 0 <= k < st.cells.len() implies dict_has(
            st.dict,
            #[trigger] st.cells[k].code_id,
        ) by {
            if k < prev.cells.len() {
                let key = prev.cells[k].code_id;
                assert(dict_has(prev.dict, key));
                lemma_dict_has_iff(prev.dict, key);
                let w = choose|i: int| 0 <= i < prev.dict.len() && prev.dict[i].key == key;
                assert(st.dict[w].key == key);
                lemma_dict_has_iff(st.dict, key);
                assert(st.cells[k].code_id == key);
            } else {
                assert(st.cells[k] == cell_of(c, h));
                if !dict_has(prev.dict, h) {
                    assert(st.dict[st.dict.len() - 1].key == h);
                } else {
                    lemma_dict_has_iff(prev.dict, h);
                    let w = choose|i: int| 0 <= i < prev.dict.len() && prev.dict[i].key == h;
                    assert(st.dict[w].key == h);
                }
                lemma_dict_has_iff(st.dict, h);
            }
        }
        if !dict_has(prev.dict, h) {
            assert forall|i: int, j: int|
                0 <= i < st.dict.len() && 0 <= j < st.dict.len() && i != j implies st.dict[i].key
                != st.dict[j].key by {
                if i < prev.dict.len() && j < prev.dict.len() {
                } else {
                    lemma_dict_has_iff(prev.dict, h);
                }
            }
        }
        // order preservation
        if forall|i: int, j: int| 0 <= i < j < cs.len() ==> cs[i].z <= cs[j].z {
            assert forall|i: int, j: int| 0 <= i < j < cs.drop_last().len() implies
                cs.drop_last()[i].z <= cs.drop_last()[j].z by {
                assert(cs.drop_last()[i] == cs[i]);
                assert(cs.drop_last()[j] == cs[j]);
            }
            if st.cells.len() > prev.cells.len() {
                assert(st.cells.last() == cell_of(c, h));
                if prev.cells.len() > 0 {
                    assert(cs.drop_last().len() > 0);
                    assert(prev.cells.last().z <= cs.drop_last().last().z);
                    assert(cs.drop_last().last() == cs[cs.len() - 2]);
                    assert(cs[cs.len() - 2].z <= cs.last().z);
                }
            }
        }
    }
}

/// Deduplicates a staged cell sequence, producing the kept cells, the
/// content dictionary and the number of within-window duplicate hits.
pub fn dedup_cells(staged: &Vec<StagedCell>, window: u32, drop_footers: bool) -> (r: (
    Vec<CellRecord>,
    Vec<DictEntry>,
    usize,
))
    ensures
        ({
            let st = dedup_run(staged@.map_values(|s: StagedCell| s@), window, drop_footers);
            &&& r.0@ == st.cells
            &&& r.1@.map_values(|e: DictEntry| e@) == st.dict
            &&& r.2 == st.hits
        }),
{
    let ghost sv = staged@.map_values(|s: StagedCell| s@);
    let mut cells: Vec<CellRecord> = Vec::new();
    let mut dict: Vec<DictEntry> = Vec::new();
    let mut seen: Vec<SeenEntry> = Vec::new();
    let mut hits: usize = 0;
    let mut i: usize = 0;
    while i < staged.len()
        invariant
            0 <= i <= staged.len(),
            sv == staged@.map_values(|s: StagedCell| s@),
            sv.len() == staged@.len(),
            ({
                let st = dedup_run(sv.take(i as int), window, drop_footers);
                &&& cells@ == st.cells
                &&& dict@.map_values(|e: DictEntry| e@) == st.dict
                &&& seen@ == st.seen
                &&& hits == st.hits
            }),
            hits <= i,
        decreases staged.len() - i,
    {
        let ghost pre = dedup_run(sv.take(i as int), window, drop_footers);
        let c = &staged[i];
        proof {
            assert(sv[i as int] == staged@[i as int]@);
        }
        let h = hash_payload(&c.text);
        let si = seen_find_index(&seen, h);
        let is_dup = match si {
            Some(j) => seen[j].z <= c.z && c.z - seen[j].z <= window,
            None => false,
        };
        proof {
            lemma_seen_find_from_props(seen@, h, 0);
        }
        let dropped = is_dup && drop_footers && matches!(c.cell_type, CellType::Footer);
        if !dropped {
            cells.push(CellRecord {
                code_id: h,
                cell_type: c.cell_type,
                x: c.x,
                y: c.y,
                w: c.w,
                h: c.h,
                z: c.z,
                importance: c.importance,
            });
        }
        let in_dict = dict_find_index(&dict, h);
        if in_dict.is_none() {
            let mut payload: Vec<u8> = Vec::new();
            let mut k: usize = 0;
            while k < c.text.len()
                invariant
                    0 <= k <= c.text.len(),
                    payload@ == c.text@.take(k as int),
                decreases c.text.len() - k,
            {
                payload.push(c.text[k]);
                proof {
                    assert(c.text@.take(k + 1) =~= c.text@.take(k as int).push(c.text@[k as int]));
                }
                k = k + 1;
            }
            proof {
                assert(c.text@.take(c.text@.len() as int) =~= c.text@);
            }
            dict.push(DictEntry { key: h, payload });
        }
        match si {
            Some(j) => {
                seen.set(j, SeenEntry { key: h, z: c.z });
            },
            None => {
                seen.push(SeenEntry { key: h, z: c.z });
            },
        }
        if is_dup {
            hits = hits + 1;
        }
        proof {
            assert(sv.take(i + 1).drop_last() =~= sv.take(i as int));
            assert(sv.take(i + 1).last() == sv[i as int]);
            let post = dedup_step(pre, sv[i as int], window, drop_footers);
            assert(dedup_run(sv.take(i + 1), window, drop_footers) == post);
            assert(dict@.map_values(|e: DictEntry| e@) =~= post.dict);
            assert(cells@ =~= post.cells);
            assert(seen@ =~= post.seen);
        }
        i = i + 1;
    }
    proof {
        assert(sv.take(sv.len() as int) =~= sv);
    }
    (cells, dict, hits)
}

} // verus!
