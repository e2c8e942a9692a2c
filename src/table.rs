use vstd::prelude::*;

use dashmap::DashMap;

use crate::classify::Flip;

verus! {

/// A count key: first barcode, second barcode, variable region.
pub type CountKey = (Seq<u8>, Seq<u8>, Seq<u8>);

/// Non-flipped and flipped counts.
pub type Counts = (nat, nat);

#[verifier::external_type_specification]
#[verifier::external_body]
#[verifier::reject_recursive_types(K)]
#[verifier::reject_recursive_types(V)]
#[verifier::reject_recursive_types(S)]
pub struct ExDashMap<K, V, S>(DashMap<K, V, S>);

/// Key of a count map: first barcode, second barcode, variable region.
pub type RowKey = (Vec<u8>, Vec<u8>, Vec<u8>);

/// Count map: non-flipped and flipped counts per key.
pub type Cells = DashMap<RowKey, (u64, u64)>;

/// The entries of a count map, keys taken by contents.
pub uninterp spec fn cells_of(t: Cells) -> Map<
    (Seq<u8>, Seq<u8>, Seq<u8>),
    (u64, u64),
>;

pub open spec fn key_view(k: (Vec<u8>, Vec<u8>, Vec<u8>)) -> CountKey {
    (k.0@, k.1@, k.2@)
}

/// Relies on `DashMap::new`: a new map holds no entry.
#[verifier::external_body]
fn cells_new() -> (r: Cells)
    ensures
        cells_of(r).dom() == Set::<CountKey>::empty(),
{
    DashMap::new()
}

/// Relies on `DashMap::get`: the value stored under a key equal to `k`, if
/// any. Keys are tuples of `Vec<u8>`, whose `Eq` and `Hash` go by contents.
#[verifier::external_body]
fn cells_get(t: &Cells, k: &RowKey) -> (r:
    Option<(u64, u64)>)
    ensures
        r == if cells_of(*t).contains_key(key_view(*k)) {
            Some(cells_of(*t)[key_view(*k)])
        } else {
            None
        },
{
    t.get(k).map(|e| *e.value())
}

/// Relies on `DashMap::insert`: afterwards `k` maps to `v`, and every other
/// entry is kept.
#[verifier::external_body]
fn cells_insert(
    t: &mut Cells,
    k: RowKey,
    v: (u64, u64),
)
    ensures
        cells_of(*final(t)) == cells_of(*old(t)).insert(key_view(k), v),
{
    t.insert(k, v);
}

/// Relies on `DashMap::iter`: it visits every entry exactly once, in an order
/// that depends on the hasher.
#[verifier::external_body]
fn cells_list(t: &Cells) -> (r: Vec<(RowKey, (u64, u64))>)
    ensures
        forall|i: int|
            0 <= i < r@.len() ==> cells_of(*t).contains_key(key_view(#[trigger] r@[i].0))
                && cells_of(*t)[key_view(r@[i].0)] == r@[i].1,
        forall|i: int, j: int|
            0 <= i < r@.len() && 0 <= j < r@.len() && i != j ==> key_view(#[trigger] r@[i].0)
                != key_view(#[trigger] r@[j].0),
        forall|k: CountKey|
            cells_of(*t).contains_key(k) ==> exists|i: int| 0 <= i < r@.len() && key_view(#[trigger] r@[i].0) == k,
{
    t.iter().map(|e| (e.key().clone(), *e.value())).collect()
}

/// One row of an aggregate: a sample, a variable region and its counts.
#[derive(Debug)]
pub struct CountRow {
    pub barcode1: Vec<u8>,
    pub barcode2: Vec<u8>,
    pub rbs: Vec<u8>,
    pub non_flipped: u64,
    pub flipped: u64,
}

impl View for CountRow {
    type V = (CountKey, Counts);

    open spec fn view(&self) -> (CountKey, Counts) {
        ((self.barcode1@, self.barcode2@, self.rbs@), (self.non_flipped as nat, self.flipped as nat))
    }
}

/// Models of a sequence of rows.
pub open spec fn rows_view(rows: Seq<CountRow>) -> Seq<(CountKey, Counts)> {
    rows.map_values(|r: CountRow| r@)
}

/// The counts of `k` in `m`, zero where `m` has no entry for it.
pub open spec fn count_at(m: Map<CountKey, Counts>, k: CountKey) -> Counts {
    if m.contains_key(k) {
        m[k]
    } else {
        (0, 0)
    }
}

pub open spec fn add_counts(a: Counts, b: Counts) -> Counts {
    (a.0 + b.0, a.1 + b.1)
}

/// The aggregate `m` with the counts `c` added under `k`.
pub open spec fn add_at(m: Map<CountKey, Counts>, k: CountKey, c: Counts) -> Map<CountKey, Counts> {
    m.insert(k, add_counts(count_at(m, k), c))
}

/// Sum of the counts of the rows keyed `k`.
pub open spec fn row_sum(rows: Seq<(CountKey, Counts)>, k: CountKey) -> Counts
    decreases rows.len(),
{
    if rows.len() == 0 {
        (0, 0)
    } else {
        let s = row_sum(rows.drop_last(), k);
        if rows.last().0 == k {
            add_counts(s, rows.last().1)
        } else {
            s
        }
    }
}

/// Rows grouped by key, with their counts summed.
pub open spec fn merged(rows: Seq<(CountKey, Counts)>) -> Map<CountKey, Counts> {
    Map::new(|k: CountKey| exists|i: int| 0 <= i < rows.len() && rows[i].0 == k, |k: CountKey| row_sum(rows, k))
}

/// `rows` list the entries of `m`, each once.
pub open spec fn lists(rows: Seq<(CountKey, Counts)>, m: Map<CountKey, Counts>) -> bool {
    &&& forall|i: int| 0 <= i < rows.len() ==> m.contains_key(#[trigger] rows[i].0) && m[rows[i].0] == rows[i].1
    &&& forall|i: int, j: int|
        0 <= i < rows.len() && 0 <= j < rows.len() && i != j ==> #[trigger] rows[i].0 != #[trigger] rows[j].0
    &&& forall|k: CountKey| m.contains_key(k) ==> exists|i: int| 0 <= i < rows.len() && #[trigger] rows[i].0 == k
}

/// A key that no row carries sums to zero.
pub proof fn lemma_row_sum_absent(rows: Seq<(CountKey, Counts)>, k: CountKey)
    requires
        forall|i: int| 0 <= i < rows.len() ==> rows[i].0 != k,
    ensures
        row_sum(rows, k) == (0nat, 0nat),
    decreases rows.len(),
{
    if rows.len() > 0 {
        assert(rows.last().0 != k);
        lemma_row_sum_absent(rows.drop_last(), k);
    }
}

/// Grouping one more row adds its counts under its key.
pub proof fn lemma_merged_push(rows: Seq<(CountKey, Counts)>, r: (CountKey, Counts))
    ensures
        merged(rows.push(r)) == add_at(merged(rows), r.0, r.1),
{
    let m = merged(rows);
    let rows2 = rows.push(r);
    assert(rows2.drop_last() =~= rows);
    if !m.contains_key(r.0) {
        lemma_row_sum_absent(rows, r.0);
    }
    assert forall|k: CountKey| merged(rows2).contains_key(k) <==> add_at(m, r.0, r.1).contains_key(k) by {
        if k != r.0 && merged(rows2).contains_key(k) {
            let i = choose|i: int| 0 <= i < rows2.len() && rows2[i].0 == k;
            assert(rows[i].0 == k);
        }
        if m.contains_key(k) {
            let i = choose|i: int| 0 <= i < rows.len() && rows[i].0 == k;
            assert(rows2[i].0 == k);
        }
        if k == r.0 {
            assert(rows2[rows.len() as int].0 == k);
        }
    }
    assert(merged(rows2) =~= add_at(m, r.0, r.1));
}

/// Counts per sample and variable region, held in a [`DashMap`].
pub struct SampleTable {
    cells: Cells,
}

impl View for SampleTable {
    type V = Map<CountKey, Counts>;

    closed spec fn view(&self) -> Map<CountKey, Counts> {
        let c = cells_of(self.cells);
        Map::new(|k: CountKey| c.contains_key(k), |k: CountKey| (c[k].0 as nat, c[k].1 as nat))
    }
}

impl SampleTable {
    /// A table with no entry.
    pub fn new() -> (t: SampleTable)
        ensures
            t@ == Map::<CountKey, Counts>::empty(),
    {
        let t = SampleTable { cells: cells_new() };
        assert(t@ =~= Map::<CountKey, Counts>::empty());
        t
    }

    /// Counts under `key`, zero where the table has no entry for it.
    pub fn get(&self, key: &(Vec<u8>, Vec<u8>, Vec<u8>)) -> (r: (u64, u64))
        ensures
            (r.0 as nat, r.1 as nat) == count_at(self@, key_view(*key)),
    {
        match cells_get(&self.cells, key) {
            Some(v) => v,
            None => (0, 0),
        }
    }

    /// Adds `non_flipped` and `flipped` to the counts under `key`, creating
    /// the entry if there is none.
    pub fn add(&mut self, key: (Vec<u8>, Vec<u8>, Vec<u8>), non_flipped: u64, flipped: u64)
        requires
            count_at(old(self)@, key_view(key)).0 + non_flipped <= u64::MAX,
            count_at(old(self)@, key_view(key)).1 + flipped <= u64::MAX,
        ensures
            final(self)@ == add_at(old(self)@, key_view(key), (non_flipped as nat, flipped as nat)),
    {
        let ghost before = self@;
        let cur = self.get(&key);
        let ghost kv = key_view(key);
        cells_insert(&mut self.cells, key, (cur.0 + non_flipped, cur.1 + flipped));
        assert(self@ =~= add_at(before, kv, (non_flipped as nat, flipped as nat)));
    }

    /// Counts one read pair of `sample` with variable region `rbs` in orientation `flip`.
    pub fn record(&mut self, barcode1: Vec<u8>, barcode2: Vec<u8>, rbs: Vec<u8>, flip: Flip)
        requires
            count_at(old(self)@, (barcode1@, barcode2@, rbs@)).0 < u64::MAX,
            count_at(old(self)@, (barcode1@, barcode2@, rbs@)).1 < u64::MAX,
        ensures
            final(self)@ == add_at(old(self)@, (barcode1@, barcode2@, rbs@), unit_counts(flip)),
    {
        match flip {
            Flip::NonFlipped => self.add((barcode1, barcode2, rbs), 1, 0),
            Flip::Flipped => self.add((barcode1, barcode2, rbs), 0, 1),
        }
    }

    /// The entries of the table as rows, each once, in no particular order.
    pub fn rows(&self) -> (r: Vec<CountRow>)
        ensures
            lists(rows_view(r@), self@),
    {
        let cells = cells_list(&self.cells);
        let mut out: Vec<CountRow> = Vec::new();
        let mut i: usize = 0;
        while i < cells.len()
            invariant
                0 <= i <= cells@.len(),
                out@.len() == i,
                forall|j: int| 0 <= j < i ==> #[trigger] out@[j]@ == (key_view(cells@[j].0), (cells@[j].1.0 as nat, cells@[j].1.1 as nat)),
            decreases cells@.len() - i,
        {
            let entry = &cells[i];
            let row = CountRow {
                barcode1: vstd::slice::slice_to_vec(entry.0.0.as_slice()),
                barcode2: vstd::slice::slice_to_vec(entry.0.1.as_slice()),
                rbs: vstd::slice::slice_to_vec(entry.0.2.as_slice()),
                non_flipped: entry.1.0,
                flipped: entry.1.1,
            };
            out.push(row);
            i = i + 1;
        }
        let ghost rv = rows_view(out@);
        assert forall|j: int| 0 <= j < rv.len() implies #[trigger] rv[j] == (key_view(cells@[j].0), (cells@[j].1.0 as nat, cells@[j].1.1 as nat)) by {
            assert(out@[j]@ == rv[j]);
        }
        assert forall|k: CountKey| self@.contains_key(k) implies exists|j: int| 0 <= j < rv.len() && #[trigger] rv[j].0 == k by {
            let j = choose|j: int| 0 <= j < cells@.len() && key_view(#[trigger] cells@[j].0) == k;
            assert(rv[j].0 == k);
        }
        assert forall|a: int, b: int| 0 <= a < rv.len() && 0 <= b < rv.len() && a != b implies #[trigger] rv[a].0 != #[trigger] rv[b].0 by {
            assert(key_view(cells@[a].0) != key_view(cells@[b].0));
        }
        out
    }
}

/// Counts of a single read pair in orientation `flip`.
pub open spec fn unit_counts(flip: Flip) -> Counts {
    match flip {
        Flip::NonFlipped => (1, 0),
        Flip::Flipped => (0, 1),
    }
}

} // verus!
