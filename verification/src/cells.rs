//! Maps and sets keyed by grid cells.
//!
//! A cell `(x, y, z)` is stored under a single `u128` key made of the three
//! coordinates shifted into `[0, 2^32)` and packed side by side, so that the
//! hash tables underneath are keyed by a primitive integer.
use std::collections::HashMap;
use std::collections::HashSet;
use vstd::prelude::*;
use vstd::std_specs::iter::IteratorSpec;

verus! {

broadcast use vstd::std_specs::hash::group_hash_axioms;

/// A grid cell: `(x, y, z)`.
pub type Cell = (i32, i32, i32);

/// A horizontal position on the grid: `(x, y)`.
pub type Column = (i32, i32);

pub open spec fn shift(v: i32) -> int {
    v as int + 0x8000_0000
}

/// The key under which a cell is stored.
pub open spec fn cell_key(c: Cell) -> u128 {
    (shift(c.0) * 0x1_0000_0000_0000_0000 + shift(c.1) * 0x1_0000_0000 + shift(c.2)) as u128
}

/// The cell stored under a key below `2^96`.
pub open spec fn key_cell(k: u128) -> Cell {
    (
        ((k / 0x1_0000_0000_0000_0000) as int - 0x8000_0000) as i32,
        (((k / 0x1_0000_0000) % 0x1_0000_0000) as int - 0x8000_0000) as i32,
        ((k % 0x1_0000_0000) as int - 0x8000_0000) as i32,
    )
}

/// The key under which a column is stored.
pub open spec fn column_key(c: Column) -> u64 {
    (shift(c.0) * 0x1_0000_0000 + shift(c.1)) as u64
}

pub proof fn lemma_cell_key_bounds(c: Cell)
    ensures
        cell_key(c) < 0x1_0000_0000_0000_0000_0000_0000,
        key_cell(cell_key(c)) == c,
{
    let a = shift(c.0);
    let b = shift(c.1);
    let d = shift(c.2);
    assert(0 <= a < 0x1_0000_0000 && 0 <= b < 0x1_0000_0000 && 0 <= d < 0x1_0000_0000);
    let k = a * 0x1_0000_0000_0000_0000 + b * 0x1_0000_0000 + d;
    assert(0 <= k < 0x1_0000_0000_0000_0000_0000_0000) by (nonlinear_arith)
        requires
            0 <= a < 0x1_0000_0000,
            0 <= b < 0x1_0000_0000,
            0 <= d < 0x1_0000_0000,
            k == a * 0x1_0000_0000_0000_0000 + b * 0x1_0000_0000 + d,
    ;
    assert(k / 0x1_0000_0000_0000_0000 == a && (k / 0x1_0000_0000) % 0x1_0000_0000 == b && k
        % 0x1_0000_0000 == d) by (nonlinear_arith)
        requires
            0 <= a < 0x1_0000_0000,
            0 <= b < 0x1_0000_0000,
            0 <= d < 0x1_0000_0000,
            k == a * 0x1_0000_0000_0000_0000 + b * 0x1_0000_0000 + d,
    {
        assert(k == (a * 0x1_0000_0000 + b) * 0x1_0000_0000 + d);
        assert(0 <= a * 0x1_0000_0000 + b);
        vstd::arithmetic::div_mod::lemma_fundamental_div_mod_converse(
            k,
            0x1_0000_0000,
            a * 0x1_0000_0000 + b,
            d,
        );
        vstd::arithmetic::div_mod::lemma_fundamental_div_mod_converse(
            a * 0x1_0000_0000 + b,
            0x1_0000_0000,
            a,
            b,
        );
        vstd::arithmetic::div_mod::lemma_div_denominator(k, 0x1_0000_0000, 0x1_0000_0000);
    }
}

pub proof fn lemma_key_cell_round_trip(k: u128)
    requires
        k < 0x1_0000_0000_0000_0000_0000_0000,
    ensures
        cell_key(key_cell(k)) == k,
{
    let a = k / 0x1_0000_0000_0000_0000;
    let b = (k / 0x1_0000_0000) % 0x1_0000_0000;
    let d = k % 0x1_0000_0000;
    assert(k == a * 0x1_0000_0000_0000_0000 + b * 0x1_0000_0000 + d && a < 0x1_0000_0000) by (nonlinear_arith)
        requires
            k < 0x1_0000_0000_0000_0000_0000_0000,
            a == k / 0x1_0000_0000_0000_0000,
            b == (k / 0x1_0000_0000) % 0x1_0000_0000,
            d == k % 0x1_0000_0000,
    {
        vstd::arithmetic::div_mod::lemma_fundamental_div_mod(k as int, 0x1_0000_0000);
        vstd::arithmetic::div_mod::lemma_fundamental_div_mod(
            (k / 0x1_0000_0000) as int,
            0x1_0000_0000,
        );
        vstd::arithmetic::div_mod::lemma_div_denominator(k as int, 0x1_0000_0000, 0x1_0000_0000);
    }
}

pub proof fn lemma_cell_key_injective(c1: Cell, c2: Cell)
    ensures
        cell_key(c1) == cell_key(c2) <==> c1 == c2,
{
    lemma_cell_key_bounds(c1);
    lemma_cell_key_bounds(c2);
}

pub proof fn lemma_column_key_injective(c1: Column, c2: Column)
    ensures
        column_key(c1) == column_key(c2) <==> c1 == c2,
{
    let a1 = shift(c1.0);
    let b1 = shift(c1.1);
    let a2 = shift(c2.0);
    let b2 = shift(c2.1);
    assert(a1 * 0x1_0000_0000 + b1 == a2 * 0x1_0000_0000 + b2 ==> a1 == a2 && b1 == b2)
        by (nonlinear_arith)
        requires
            0 <= a1 < 0x1_0000_0000,
            0 <= b1 < 0x1_0000_0000,
            0 <= a2 < 0x1_0000_0000,
            0 <= b2 < 0x1_0000_0000,
    {
        if a1 * 0x1_0000_0000 + b1 == a2 * 0x1_0000_0000 + b2 {
            vstd::arithmetic::div_mod::lemma_fundamental_div_mod_converse(
                a1 * 0x1_0000_0000 + b1,
                0x1_0000_0000,
                a1,
                b1,
            );
            vstd::arithmetic::div_mod::lemma_fundamental_div_mod_converse(
                a2 * 0x1_0000_0000 + b2,
                0x1_0000_0000,
                a2,
                b2,
            );
        }
    }
    assert(0 <= a1 * 0x1_0000_0000 + b1 < 0x1_0000_0000_0000_0000) by (nonlinear_arith)
        requires
            0 <= a1 < 0x1_0000_0000,
            0 <= b1 < 0x1_0000_0000,
    ;
    assert(0 <= a2 * 0x1_0000_0000 + b2 < 0x1_0000_0000_0000_0000) by (nonlinear_arith)
        requires
            0 <= a2 < 0x1_0000_0000,
            0 <= b2 < 0x1_0000_0000,
    ;
}

fn shifted(v: i32) -> (r: u128)
    ensures
        r == shift(v),
        r < 0x1_0000_0000,
{
    (v as i64 + 0x8000_0000i64) as u128
}

/// Computes the key of a cell.
pub fn key_of_cell(c: Cell) -> (k: u128)
    ensures
        k == cell_key(c),
{
    let a = shifted(c.0);
    let b = shifted(c.1);
    let d = shifted(c.2);
    proof {
        lemma_cell_key_bounds(c);
        assert(a * 0x1_0000_0000_0000_0000 + b * 0x1_0000_0000 + d
            < 0x1_0000_0000_0000_0000_0000_0000) by (nonlinear_arith)
            requires
                a < 0x1_0000_0000,
                b < 0x1_0000_0000,
                d < 0x1_0000_0000,
        ;
    }
    a * 0x1_0000_0000_0000_0000 + b * 0x1_0000_0000 + d
}

fn key_of_column(c: Column) -> (k: u64)
    ensures
        k == column_key(c),
{
    let a = shifted(c.0) as u64;
    let b = shifted(c.1) as u64;
    proof {
        assert(a * 0x1_0000_0000 + b < 0x1_0000_0000_0000_0000) by (nonlinear_arith)
            requires
                a < 0x1_0000_0000,
                b < 0x1_0000_0000,
        ;
    }
    a * 0x1_0000_0000 + b
}

/// Recovers the cell stored under a key below `2^96`.
fn cell_of_key(k: u128) -> (c: Cell)
    requires
        k < 0x1_0000_0000_0000_0000_0000_0000,
    ensures
        c == key_cell(k),
        cell_key(c) == k,
{
    proof {
        lemma_key_cell_round_trip(k);
        assert(k / 0x1_0000_0000_0000_0000 < 0x1_0000_0000) by (nonlinear_arith)
            requires
                k < 0x1_0000_0000_0000_0000_0000_0000,
        ;
    }
    let a = (k / 0x1_0000_0000_0000_0000) as i64 - 0x8000_0000i64;
    let b = ((k / 0x1_0000_0000) % 0x1_0000_0000) as i64 - 0x8000_0000i64;
    let d = (k % 0x1_0000_0000) as i64 - 0x8000_0000i64;
    (a as i32, b as i32, d as i32)
}

/// A map from grid cells to values.
#[derive(Debug)]
pub struct CellMap<V> {
    inner: HashMap<u128, V>,
}

impl<T> View for CellMap<T> {
    type V = Map<Cell, T>;

    /// The contents of the map.
    closed spec fn view(&self) -> Map<Cell, T> {
        Map::new(|c: Cell| self.inner@.contains_key(cell_key(c)), |c: Cell| self.inner@[cell_key(c)])
    }
}

impl<V> CellMap<V> {
    #[verifier::type_invariant]
    spec fn keys_are_cells(self) -> bool {
        forall|k: u128| #[trigger]
            self.inner@.contains_key(k) ==> k < 0x1_0000_0000_0000_0000_0000_0000
    }

    /// An empty map.
    pub fn new() -> (m: Self)
        ensures
            m.view() == Map::<Cell, V>::empty(),
    {
        let m = CellMap { inner: HashMap::new() };
        assert(m.view() =~= Map::<Cell, V>::empty());
        m
    }

    /// Maps `c` to `v`, replacing any previous value.
    pub fn insert(&mut self, c: Cell, v: V)
        ensures
            final(self).view() == old(self).view().insert(c, v),
    {
        proof {
            use_type_invariant(&*self);
            lemma_cell_key_bounds(c);
        }
        let k = key_of_cell(c);
        let mut inner = HashMap::new();
        std::mem::swap(&mut inner, &mut self.inner);
        inner.insert(k, v);
        self.inner = inner;
        proof {
            assert forall|c2: Cell| #![auto] self@.contains_key(c2) == old(self).view().insert(
                c,
                v,
            ).contains_key(c2) by {
                lemma_cell_key_injective(c, c2);
            }
            assert forall|c2: Cell| #![auto] self@.contains_key(c2) ==> self@[c2] == old(
                self,
            ).view().insert(c, v)[c2] by {
                lemma_cell_key_injective(c, c2);
            }
            assert(self@ =~= old(self).view().insert(c, v));
        }
    }

    /// Removes the value at `c`, if any, and returns it.
    pub fn remove(&mut self, c: Cell) -> (r: Option<V>)
        ensures
            final(self).view() == old(self).view().remove(c),
            r == (if old(self).view().contains_key(c) {
                Some(old(self).view()[c])
            } else {
                None
            }),
    {
        proof {
            use_type_invariant(&*self);
        }
        let k = key_of_cell(c);
        let mut inner = HashMap::new();
        std::mem::swap(&mut inner, &mut self.inner);
        let r = inner.remove(&k);
        self.inner = inner;
        proof {
            assert forall|c2: Cell| #![auto] self@.contains_key(c2) == old(self).view().remove(
                c,
            ).contains_key(c2) by {
                lemma_cell_key_injective(c, c2);
            }
            assert(self@ =~= old(self).view().remove(c));
        }
        r
    }

    /// The value at `c`, if any.
    pub fn get(&self, c: Cell) -> (r: Option<&V>)
        ensures
            r == (if self@.contains_key(c) {
                Some(&self@[c])
            } else {
                None
            }),
    {
        let k = key_of_cell(c);
        self.inner.get(&k)
    }

    /// Whether a value is stored at `c`.
    pub fn contains(&self, c: Cell) -> (r: bool)
        ensures
            r == self@.contains_key(c),
    {
        let k = key_of_cell(c);
        self.inner.contains_key(&k)
    }

    /// The number of cells that hold a value.
    pub fn len(&self) -> (r: usize)
        ensures
            r == self@.dom().len(),
    {
        proof {
            use_type_invariant(self);
            self.lemma_dom_len();
        }
        self.inner.len()
    }

    /// Whether no cell holds a value.
    pub fn is_empty(&self) -> (r: bool)
        ensures
            r == (self@.dom().len() == 0),
    {
        self.len() == 0
    }

    /// Removes every value.
    pub fn clear(&mut self)
        ensures
            final(self).view() == Map::<Cell, V>::empty(),
    {
        self.inner = HashMap::new();
        assert(self@ =~= Map::<Cell, V>::empty());
    }

    #[verifier::spinoff_prover]
    #[verifier::rlimit(80)]
    proof fn lemma_dom_len(&self)
        requires
            forall|k: u128| #[trigger]
                self.inner@.contains_key(k) ==> k < 0x1_0000_0000_0000_0000_0000_0000,
        ensures
            self@.dom().finite(),
            self@.dom().len() == self.inner@.dom().len(),
    {
        let f = |c: Cell| cell_key(c);
        let d = self@.dom();
        assert(self.inner@.dom().finite());
        assert(d =~= self.inner@.dom().map(|k: u128| key_cell(k))) by {
            assert forall|c: Cell| d.contains(c) implies self.inner@.dom().map(
                |k: u128| key_cell(k),
            ).contains(c) by {
                lemma_cell_key_bounds(c);
                assert(self.inner@.dom().contains(cell_key(c)));
            }
            assert forall|c: Cell| self.inner@.dom().map(|k: u128| key_cell(k)).contains(
                c,
            ) implies d.contains(c) by {
                let k = choose|k: u128| self.inner@.dom().contains(k) && key_cell(k) == c;
                lemma_key_cell_round_trip(k);
            }
        }
        vstd::set_lib::lemma_map_size(
            self.inner@.dom(),
            d,
            |k: u128| key_cell(k),
        );
        assert forall|k1: u128, k2: u128|
            self.inner@.dom().contains(k1) && self.inner@.dom().contains(k2) && #[trigger] key_cell(k1)
                == #[trigger] key_cell(k2) implies k1 == k2 by {
            lemma_key_cell_round_trip(k1);
            lemma_key_cell_round_trip(k2);
        }
        let _ = f;
    }

    /// Every cell that holds a value, each once, in an unspecified order.
    pub fn cells(&self) -> (r: Vec<Cell>)
        ensures
            r@.no_duplicates(),
            r@.to_set() == self@.dom(),
            forall|c: Cell| #[trigger] r@.contains(c) <==> self@.contains_key(c),
            self@.dom().finite(),
    {
        proof {
            use_type_invariant(self);
        }
        let mut r: Vec<Cell> = Vec::new();
        let mut it = vstd::std_specs::iter::VerusForLoopWrapper::new(self.inner.keys(), Ghost(None));
        let ghost ks = it.seq();
        proof {
            assert(ks.unref().to_set() == self.inner@.dom());
            assert(ks.no_duplicates());
        }
        loop
            invariant
                it.wf(),
                it.iter.decrease() is Some,
                it.seq() == ks,
                ks.unref().to_set() == self.inner@.dom(),
                ks.no_duplicates(),
                r@.len() == it.index(),
                forall|j: int| 0 <= j < r@.len() ==> cell_key(#[trigger] r@[j]) == *ks[j],
                forall|k: u128| #[trigger]
                    self.inner@.contains_key(k) ==> k < 0x1_0000_0000_0000_0000_0000_0000,
            ensures
                r@.len() == ks.len(),
                forall|j: int| 0 <= j < r@.len() ==> cell_key(#[trigger] r@[j]) == *ks[j],
            decreases it.iter.decrease()->0,
        {
            match it.next() {
                Some(k) => {
                    proof {
                        assert(ks.unref().to_set().contains(*k)) by {
                            assert(ks.unref()[r@.len() as int] == *k);
                        }
                    }
                    let c = cell_of_key(*k);
                    r.push(c);
                },
                None => {
                    break;
                },
            }
        }
        proof {
            assert forall|i: int, j: int| 0 <= i < r@.len() && 0 <= j < r@.len() && i != j implies r@[i]
                != r@[j] by {
                lemma_cell_key_injective(r@[i], r@[j]);
            }
            assert forall|c: Cell| #[trigger] r@.contains(c) <==> self@.contains_key(c) by {
                if r@.contains(c) {
                    let j = choose|j: int| 0 <= j < r@.len() && r@[j] == c;
                    assert(ks.unref()[j] == *ks[j]);
                    assert(ks.unref().to_set().contains(*ks[j]));
                }
                if self@.contains_key(c) {
                    assert(self.inner@.dom().contains(cell_key(c)));
                    assert(ks.unref().to_set().contains(cell_key(c)));
                    let j = choose|j: int| 0 <= j < ks.len() && ks.unref()[j] == cell_key(c);
                    lemma_cell_key_injective(r@[j], c);
                    assert(r@[j] == c);
                }
            }
            assert(r@.to_set() =~= self@.dom());
            vstd::seq_lib::seq_to_set_is_finite(r@);
        }
        r
    }
}

/// A set of columns `(x, y)`.
#[derive(Debug)]
pub struct ColumnSet {
    inner: HashSet<u64>,
}

impl View for ColumnSet {
    type V = Set<Column>;

    /// The columns in the set.
    closed spec fn view(&self) -> Set<Column> {
        Set::new(|c: Column| self.inner@.contains(column_key(c)))
    }
}

impl ColumnSet {
    /// An empty set.
    pub fn new() -> (s: Self)
        ensures
            s@ == Set::<Column>::empty(),
    {
        let s = ColumnSet { inner: HashSet::new() };
        assert(s@ =~= Set::<Column>::empty());
        s
    }

    /// Adds `c` to the set.
    pub fn insert(&mut self, c: Column)
        ensures
            final(self)@ == old(self)@.insert(c),
    {
        let k = key_of_column(c);
        self.inner.insert(k);
        assert forall|c2: Column| #![auto] self@.contains(c2) == old(self)@.insert(c).contains(c2) by {
            lemma_column_key_injective(c, c2);
        }
        assert(self@ =~= old(self)@.insert(c));
    }

    /// Whether `c` is in the set.
    pub fn contains(&self, c: Column) -> (r: bool)
        ensures
            r == self@.contains(c),
    {
        let k = key_of_column(c);
        self.inner.contains(&k)
    }

    /// Whether the set is empty.
    pub fn is_empty(&self) -> (r: bool)
        ensures
            r == (self@ == Set::<Column>::empty()),
    {
        let r = self.inner.is_empty();
        proof {
            if r {
                assert(self@ =~= Set::<Column>::empty());
            } else {
                let k = choose|k: u64| self.inner@.contains(k);
                let c: Column = (((k / 0x1_0000_0000) as int - 0x8000_0000) as i32, ((k % 0x1_0000_0000) as int - 0x8000_0000) as i32);
                assert(column_key(c) == k) by (nonlinear_arith)
                    requires
                        c == (((k / 0x1_0000_0000) as int - 0x8000_0000) as i32, ((k % 0x1_0000_0000) as int - 0x8000_0000) as i32),
                        k < 0x1_0000_0000_0000_0000,
                {
                    assert(k / 0x1_0000_0000 < 0x1_0000_0000) by (nonlinear_arith) requires k < 0x1_0000_0000_0000_0000;
                    vstd::arithmetic::div_mod::lemma_fundamental_div_mod(k as int, 0x1_0000_0000);
                }
                assert(self@.contains(c));
            }
        }
        r
    }

    /// Removes every column.
    pub fn clear(&mut self)
        ensures
            final(self)@ == Set::<Column>::empty(),
    {
        self.inner.clear();
        assert(self@ =~= Set::<Column>::empty());
    }
}

} // verus!
