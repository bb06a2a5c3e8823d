//! The data model: pages, cells, the content dictionary and the `Document`.

use vstd::prelude::*;

use crate::hashing::{hash_seq, CodeHash};

verus! {

/// Structural classification of one cell.
#[derive(Debug, Clone, Copy, PartialEq, Eq, Structural)]
pub enum CellType {
    Heading,
    Body,
    Table,
    Code,
    Footer,
    Caption,
}

/// One page of the source document. `z` is the 1-based page number;
/// the dimensions are the pixel frame all bounding boxes refer to.
#[derive(Debug, Clone, Copy, PartialEq, Eq, Structural)]
pub struct PageInfo {
    pub z: u32,
    pub width: u32,
    pub height: u32,
}

/// One structural unit of the encoded document. The text itself lives in
/// the content dictionary under `code_id`; the cell only points at it.
/// `importance` is an integer ranking signal in 0..=100, not a probability.
#[derive(Debug, Clone, Copy, PartialEq, Eq, Structural)]
pub struct CellRecord {
    pub code_id: CodeHash,
    pub cell_type: CellType,
    pub x: u32,
    pub y: u32,
    pub w: u32,
    pub h: u32,
    pub z: u32,
    pub importance: u32,
}

/// One entry of the content dictionary: a digest key and the payload it
/// addresses.
#[derive(Debug, Clone)]
pub struct DictEntry {
    pub key: CodeHash,
    pub payload: Vec<u8>,
}

/// Mathematical model of a dictionary entry.
#[verifier::ext_equal]
pub ghost struct DictEntryV {
    pub key: CodeHash,
    pub payload: Seq<u8>,
}

impl View for DictEntry {
    type V = DictEntryV;

    open spec fn view(&self) -> DictEntryV {
        DictEntryV { key: self.key, payload: self.payload@ }
    }
}

/// First index of `key` in `d` at or after `i`, or -1 if absent there.
pub open spec fn dict_find_from(d: Seq<DictEntryV>, key: CodeHash, i: int) -> int
    decreases d.len() - i,
{
    if i < 0 || i >= d.len() {
        -1
    } else if d[i].key == key {
        i
    } else {
        dict_find_from(d, key, i + 1)
    }
}

/// First index of `key` in `d`, or -1 if the key is absent.
pub open spec fn dict_find(d: Seq<DictEntryV>, key: CodeHash) -> int {
    dict_find_from(d, key, 0)
}

/// Whether the dictionary holds an entry for `key`.
pub open spec fn dict_has(d: Seq<DictEntryV>, key: CodeHash) -> bool {
    dict_find(d, key) >= 0
}

/// The payload addressed by `key` (meaningful only when `dict_has`).
pub open spec fn dict_payload(d: Seq<DictEntryV>, key: CodeHash) -> Seq<u8> {
    if dict_has(d, key) {
        d[dict_find(d, key)].payload
    } else {
        Seq::empty()
    }
}

/// Dictionary well-formedness: keys are unique and every entry is
/// content-addressed, i.e. its key is the digest of its payload.
pub open spec fn dict_wf(d: Seq<DictEntryV>) -> bool {
    &&& forall|i: int, j: int|
        0 <= i < d.len() && 0 <= j < d.len() && i != j ==> d[i].key != d[j].key
    &&& forall|i: int| 0 <= i < d.len() ==> d[i].key == hash_seq(#[trigger] d[i].payload)
}

/// A found index is a real occurrence, and nothing before it matches.
pub proof fn lemma_dict_find_from_props(d: Seq<DictEntryV>, key: CodeHash, i: int)
    requires
        0 <= i <= d.len(),
    ensures
        dict_find_from(d, key, i) >= 0 ==> {
            &&& i <= dict_find_from(d, key, i) < d.len()
            &&& d[dict_find_from(d, key, i)].key == key
        },
        dict_find_from(d, key, i) < 0 ==> forall|j: int|
            i <= j < d.len() ==> d[j].key != key,
    decreases d.len() - i,
{
    if i < d.len() && d[i].key != key {
        lemma_dict_find_from_props(d, key, i + 1);
    }
}

/// Finds the first entry of `dict` holding `key`.
pub fn dict_find_index(dict: &Vec<DictEntry>, key: CodeHash) -> (r: Option<usize>)
    ensures
        r matches Some(i) ==> dict_find(dict@.map_values(|e: DictEntry| e@), key) == i,
        r is None ==> dict_find(dict@.map_values(|e: DictEntry| e@), key) < 0,
{
    let ghost d = dict@.map_values(|e: DictEntry| e@);
    let mut i: usize = 0;
    while i < dict.len()
        invariant
            0 <= i <= dict.len(),
            d == dict@.map_values(|e: DictEntry| e@),
            d.len() == dict.len(),
            dict_find_from(d, key, 0) == dict_find_from(d, key, i as int),
        decreases dict.len() - i,
    {
        if dict[i].key == key {
            proof {
                assert(d[i as int].key == key);
            }
            return Some(i);
        }
        proof {
            assert(d[i as int].key != key);
        }
        i = i + 1;
    }
    None
}

/// Model of a whole document.
#[verifier::ext_equal]
pub ghost struct DocView {
    pub pages: Seq<PageInfo>,
    pub cells: Seq<CellRecord>,
    pub dict: Seq<DictEntryV>,
}

/// Document well-formedness:
/// - the dictionary has unique, content-addressed keys;
/// - every cell's `code_id` resolves in the dictionary;
/// - page numbers are 1-based and strictly increasing;
/// - cells are in global `(z, read order)` order, so their `z` values are
///   non-decreasing, and every importance score is within 0..=100.
pub open spec fn doc_wf(d: DocView) -> bool {
    &&& dict_wf(d.dict)
    &&& forall|i: int| 0 <= i < d.cells.len() ==> dict_has(d.dict, #[trigger] d.cells[i].code_id)
    &&& forall|i: int| 0 <= i < d.pages.len() ==> (#[trigger] d.pages[i]).z >= 1
    &&& forall|i: int, j: int|
        0 <= i < j < d.pages.len() ==> d.pages[i].z < d.pages[j].z
    &&& forall|i: int, j: int|
        0 <= i < j < d.cells.len() ==> d.cells[i].z <= d.cells[j].z
    &&& forall|i: int| 0 <= i < d.cells.len() ==> (#[trigger] d.cells[i]).importance <= 100
}

/// The output of one encode call: pages, cells, the content dictionary
/// and the provenance header.
#[derive(Debug, Clone)]
pub struct Document {
    pub header: crate::config::Header,
    pub pages: Vec<PageInfo>,
    pub cells: Vec<CellRecord>,
    pub dict: Vec<DictEntry>,
}

impl View for Document {
    type V = DocView;

    open spec fn view(&self) -> DocView {
        DocView {
            pages: self.pages@,
            cells: self.cells@,
            dict: self.dict@.map_values(|e: DictEntry| e@),
        }
    }
}

impl Document {
    /// Resolves a dictionary key to its payload, if present.
    pub fn resolve(&self, key: CodeHash) -> (r: Option<&Vec<u8>>)
        ensures
            r matches Some(p) ==> dict_has(self@.dict, key) && p@ == dict_payload(self@.dict, key),
            r is None ==> !dict_has(self@.dict, key),
    {
        proof {
            lemma_dict_find_from_props(self@.dict, key, 0);
        }
        match dict_find_index(&self.dict, key) {
            Some(i) => Some(&self.dict[i].payload),
            None => None,
        }
    }

    /// Number of cells in the document.
    pub fn cell_count(&self) -> (r: usize)
        ensures
            r == self@.cells.len(),
    {
        self.cells.len()
    }

    /// Number of distinct dictionary entries.
    pub fn dict_len(&self) -> (r: usize)
        ensures
            r == self@.dict.len(),
    {
        self.dict.len()
    }
}

} // verus!
