//! A sparse grid over integer tile coordinates.
//!
//! Cells are stored in a hash map keyed by one `u64` per coordinate pair; the
//! packing keeps the lexicographic order of `(x, y)`, so sorting keys sorts
//! coordinates.

use std::collections::HashMap;
use vstd::prelude::*;
use vstd::std_specs::iter::IteratorSpec;

verus! {

/// A tile coordinate `(x, y)`.
pub type Pos = (i32, i32);

/// The key under which the cell at `p` is stored.
pub open spec fn key_of(p: Pos) -> u64 {
    ((p.0 as int + 0x8000_0000) * 0x1_0000_0000 + (p.1 as int + 0x8000_0000)) as u64
}

/// The coordinate that the key `k` stands for.
pub open spec fn pos_of(k: u64) -> Pos {
    ((k as int / 0x1_0000_0000 - 0x8000_0000) as i32, (k as int % 0x1_0000_0000 - 0x8000_0000) as i32)
}

/// Lexicographic order on coordinates: by `x`, then by `y`.
pub open spec fn pos_lt(a: Pos, b: Pos) -> bool {
    a.0 < b.0 || (a.0 == b.0 && a.1 < b.1)
}

/// `l` lists exactly the members of `s`, each once, in ascending order.
pub open spec fn is_ascending_listing(l: Seq<Pos>, s: Set<Pos>) -> bool {
    &&& forall|i: int, j: int| 0 <= i < j < l.len() ==> pos_lt(#[trigger] l[i], #[trigger] l[j])
    &&& forall|p: Pos| #![trigger l.contains(p)] #![trigger s.contains(p)] l.contains(p) <==> s.contains(p)
}

/// A set of coordinates has at most one ascending listing.
pub proof fn lemma_listing_unique(a: Seq<Pos>, b: Seq<Pos>, s: Set<Pos>)
    requires
        is_ascending_listing(a, s),
        is_ascending_listing(b, s),
    ensures
        a == b,
    decreases a.len(),
{
    if a.len() == 0 {
        if b.len() > 0 {
            assert(b.contains(b[0]));
            assert(a.contains(b[0]));
        }
        assert(a =~= b);
    } else {
        assert(a.contains(a[0]));
        assert(b.contains(a[0]));
        let m = choose|m: int| 0 <= m < b.len() && b[m] == a[0];
        assert(b.contains(b[0]));
        assert(a.contains(b[0]));
        let k = choose|k: int| 0 <= k < a.len() && a[k] == b[0];
        if k > 0 && m > 0 {
            assert(pos_lt(a[0], a[k]));
            assert(pos_lt(b[0], b[m]));
        }
        assert(a[0] == b[0]);
        let rest = s.remove(a[0]);
        let ta = a.drop_first();
        let tb = b.drop_first();
        assert(is_ascending_listing(ta, rest)) by {
            lemma_tail_listing(a, s);
        }
        assert(is_ascending_listing(tb, rest)) by {
            lemma_tail_listing(b, s);
        }
        lemma_listing_unique(ta, tb, rest);
        assert(a =~= seq![a[0]] + ta);
        assert(b =~= seq![b[0]] + tb);
    }
}

/// Without its first member, an ascending listing lists the rest of the set.
proof fn lemma_tail_listing(a: Seq<Pos>, s: Set<Pos>)
    requires
        is_ascending_listing(a, s),
        a.len() > 0,
    ensures
        is_ascending_listing(a.drop_first(), s.remove(a[0])),
{
    let t = a.drop_first();
    let rest = s.remove(a[0]);
    assert forall|i: int, j: int| 0 <= i < j < t.len() implies pos_lt(#[trigger] t[i], #[trigger] t[j]) by {
        assert(pos_lt(a[i + 1], a[j + 1]));
    }
    assert forall|p: Pos| t.contains(p) <==> rest.contains(p) by {
        if t.contains(p) {
            let i = choose|i: int| 0 <= i < t.len() && t[i] == p;
            assert(a[i + 1] == p);
            assert(a.contains(p));
            assert(pos_lt(a[0], a[i + 1]));
        }
        if rest.contains(p) {
            assert(a.contains(p));
            let i = choose|i: int| 0 <= i < a.len() && a[i] == p;
            assert(t[i - 1] == p);
        }
    }
}

/// Packing and unpacking are inverse to each other, and packing keeps the order.
pub proof fn lemma_key_bijection()
    ensures
        forall|p: Pos| #[trigger] pos_of(key_of(p)) == p,
        forall|k: u64| #[trigger] key_of(pos_of(k)) == k,
        forall|p: Pos, q: Pos| key_of(p) == key_of(q) ==> p == q,
        forall|p: Pos, q: Pos| pos_lt(p, q) <==> #[trigger] key_of(p) < #[trigger] key_of(q),
{
    assert forall|p: Pos| #[trigger] pos_of(key_of(p)) == p by {
        lemma_pos_of_key(p);
    }
    assert forall|k: u64| #[trigger] key_of(pos_of(k)) == k by {
        lemma_key_of_pos(k);
    }
    assert forall|p: Pos, q: Pos| key_of(p) == key_of(q) implies p == q by {
        lemma_pos_of_key(p);
        lemma_pos_of_key(q);
    }
    assert forall|p: Pos, q: Pos| pos_lt(p, q) <==> #[trigger] key_of(p) < #[trigger] key_of(q) by {
        lemma_key_order(p, q);
    }
}

proof fn lemma_pos_of_key(p: Pos)
    ensures
        pos_of(key_of(p)) == p,
{
    let a = p.0 as int + 0x8000_0000;
    let b = p.1 as int + 0x8000_0000;
    assert(0 <= a < 0x1_0000_0000 && 0 <= b < 0x1_0000_0000);
    let k = a * 0x1_0000_0000 + b;
    assert(0 <= k <= u64::MAX);
    assert(k / 0x1_0000_0000 == a && k % 0x1_0000_0000 == b) by {
        vstd::arithmetic::div_mod::lemma_fundamental_div_mod_converse(k, 0x1_0000_0000, a, b);
    }
}

proof fn lemma_key_of_pos(k: u64)
    ensures
        key_of(pos_of(k)) == k,
{
    let a = k as int / 0x1_0000_0000;
    let b = k as int % 0x1_0000_0000;
    assert(0 <= a < 0x1_0000_0000 && 0 <= b < 0x1_0000_0000);
    assert(k as int == 0x1_0000_0000 * a + b) by {
        vstd::arithmetic::div_mod::lemma_fundamental_div_mod(k as int, 0x1_0000_0000);
    }
}

proof fn lemma_key_order(p: Pos, q: Pos)
    ensures
        pos_lt(p, q) <==> key_of(p) < key_of(q),
{
    let a = p.0 as int + 0x8000_0000;
    let b = p.1 as int + 0x8000_0000;
    let c = q.0 as int + 0x8000_0000;
    let d = q.1 as int + 0x8000_0000;
    assert(0 <= a * 0x1_0000_0000 + b <= u64::MAX);
    assert(0 <= c * 0x1_0000_0000 + d <= u64::MAX);
}

/// Packs a coordinate into its key.
pub fn pack(x: i32, y: i32) -> (k: u64)
    ensures
        k == key_of((x, y)),
{
    let a: u64 = (x as i64 + 0x8000_0000) as u64;
    let b: u64 = (y as i64 + 0x8000_0000) as u64;
    a * 0x1_0000_0000 + b
}

/// Unpacks a key into its coordinate.
pub fn unpack(k: u64) -> (p: Pos)
    ensures
        p == pos_of(k),
{
    let a: i64 = (k / 0x1_0000_0000) as i64 - 0x8000_0000;
    let b: i64 = (k % 0x1_0000_0000) as i64 - 0x8000_0000;
    (a as i32, b as i32)
}

/// Sparse storage of one value per tile coordinate.
pub struct Grid<V> {
    cells: HashMap<u64, V>,
}

impl<V> View for Grid<V> {
    type V = Map<Pos, V>;

    closed spec fn view(&self) -> Map<Pos, V> {
        Map::new(|p: Pos| self.cells@.contains_key(key_of(p)), |p: Pos| self.cells@[key_of(p)])
    }
}

impl<V: Copy> Clone for Grid<V> {
    /// A grid with the same cells.
    fn clone(&self) -> (g: Self)
        ensures
            g@ == self@,
    {
        let g = Grid { cells: self.cells.clone() };
        assert(g@ =~= self@);
        g
    }
}

impl<V> Grid<V> {
    /// An empty grid.
    pub fn new() -> (g: Self)
        ensures
            g@ == Map::<Pos, V>::empty(),
    {
        let g = Grid { cells: HashMap::new() };
        assert(g@ =~= Map::<Pos, V>::empty());
        g
    }

    /// The stored cells are finitely many.
    pub proof fn lemma_finite(&self)
        ensures
            self@.dom().finite(),
    {
        lemma_key_bijection();
        let keys = self.cells@.dom();
        assert(keys.finite());
        let image = keys.map(|k: u64| pos_of(k));
        keys.lemma_map_finite(|k: u64| pos_of(k));
        assert(self@.dom() =~= image) by {
            assert forall|p: Pos| self@.dom().contains(p) implies image.contains(p) by {
                assert(keys.contains(key_of(p)));
                assert(pos_of(key_of(p)) == p);
            }
        }
    }

    /// The value stored at `(x, y)`, if any.
    pub fn get(&self, x: i32, y: i32) -> (r: Option<&V>)
        ensures
            match r {
                Some(v) => self@.contains_key((x, y)) && *v == self@[(x, y)],
                None => !self@.contains_key((x, y)),
            },
    {
        let k = pack(x, y);
        self.cells.get(&k)
    }

    /// Whether a value is stored at `(x, y)`.
    pub fn contains(&self, x: i32, y: i32) -> (r: bool)
        ensures
            r == self@.contains_key((x, y)),
    {
        let k = pack(x, y);
        self.cells.contains_key(&k)
    }

    /// Stores `v` at `(x, y)`, replacing what was there.
    pub fn insert(&mut self, x: i32, y: i32, v: V)
        ensures
            final(self)@ == old(self)@.insert((x, y), v),
    {
        let k = pack(x, y);
        self.cells.insert(k, v);
        proof {
            lemma_key_bijection();
            assert(self@ =~= old(self)@.insert((x, y), v));
        }
    }

    /// Removes what is stored at `(x, y)`, if anything.
    pub fn remove(&mut self, x: i32, y: i32)
        ensures
            final(self)@ == old(self)@.remove((x, y)),
    {
        let k = pack(x, y);
        self.cells.remove(&k);
        proof {
            lemma_key_bijection();
            assert(self@ =~= old(self)@.remove((x, y)));
        }
    }

    /// The number of stored cells.
    pub fn len(&self) -> (n: usize)
        ensures
            n == self@.dom().len(),
    {
        proof {
            self.lemma_len();
        }
        self.cells.len()
    }

    proof fn lemma_len(&self)
        ensures
            self@.dom().len() == self.cells@.dom().len(),
            self@.dom().finite(),
    {
        lemma_key_bijection();
        let keys = self.cells@.dom();
        let f = |k: u64| pos_of(k);
        assert(vstd::relations::injective(f)) by {
            assert forall|a: u64, b: u64| #[trigger] f(a) == #[trigger] f(b) implies a == b by {
                assert(key_of(pos_of(a)) == a);
                assert(key_of(pos_of(b)) == b);
            }
        }
        vstd::set_lib::lemma_map_size(keys, keys.map(f), f);
        keys.lemma_map_finite(f);
        assert(self@.dom() =~= keys.map(f)) by {
            assert forall|p: Pos| self@.dom().contains(p) implies keys.map(f).contains(p) by {
                assert(keys.contains(key_of(p)));
                assert(f(key_of(p)) == p);
            }
        }
    }

    /// The coordinates that hold a value, in ascending order.
    pub fn positions(&self) -> (r: Vec<Pos>)
        ensures
            is_ascending_listing(r@, self@.dom()),
    {
        let mut keys: Vec<u64> = Vec::new();
        for k in it: self.cells.keys()
            invariant
                keys@.len() == it.index(),
                forall|i: int| 0 <= i < keys@.len() ==> keys@[i] == *it.seq()[i],
                it.seq() == vstd::std_specs::hash::spec_keys_iter(&self.cells).remaining(),
        {
            keys.push(*k);
        }
        let ghost unsorted = keys@;
        proof {
            broadcast use vstd::std_specs::hash::group_hash_axioms;
            let s = vstd::std_specs::hash::spec_keys_iter(&self.cells).remaining();
            assert(unsorted =~= s.unref());
            assert(unsorted.no_duplicates()) by {
                assert forall|i: int, j: int|
                    0 <= i < unsorted.len() && 0 <= j < unsorted.len() && i != j implies unsorted[i] != unsorted[j] by {
                    assert(s[i] != s[j]);
                }
            }
            assert(unsorted.to_set() == self.cells@.dom());
        }
        sort_keys(&mut keys);
        proof {
            lemma_sorted_listing(unsorted, keys@);
        }
        let mut r: Vec<Pos> = Vec::new();
        let mut i: usize = 0;
        while i < keys.len()
            invariant
                i <= keys.len(),
                r@.len() == i,
                forall|j: int| 0 <= j < i ==> r@[j] == pos_of(keys@[j]),
            decreases keys.len() - i,
        {
            r.push(unpack(keys[i]));
            i += 1;
        }
        proof {
            lemma_key_bijection();
            assert forall|p: Pos| r@.contains(p) <==> self@.dom().contains(p) by {
                if r@.contains(p) {
                    let j = choose|j: int| 0 <= j < r@.len() && r@[j] == p;
                    assert(keys@.contains(keys@[j]));
                    assert(key_of(pos_of(keys@[j])) == keys@[j]);
                }
                if self@.dom().contains(p) {
                    assert(keys@.contains(key_of(p)));
                    let j = choose|j: int| 0 <= j < keys@.len() && keys@[j] == key_of(p);
                    assert(r@[j] == p);
                }
            }
            assert forall|i: int, j: int| 0 <= i < j < r@.len() implies pos_lt(#[trigger] r@[i], #[trigger] r@[j]) by {
                assert(key_of(r@[i]) == keys@[i]);
                assert(key_of(r@[j]) == keys@[j]);
            }
        }
        r
    }
}

/// A sorted rearrangement of a sequence without repetition is strictly
/// ascending and has the same members.
proof fn lemma_sorted_listing(before: Seq<u64>, after: Seq<u64>)
    requires
        before.no_duplicates(),
        before.to_multiset() == after.to_multiset(),
        forall|i: int, j: int| 0 <= i <= j < after.len() ==> after[i] <= after[j],
    ensures
        forall|i: int, j: int| 0 <= i < j < after.len() ==> after[i] < after[j],
        forall|k: u64| after.contains(k) <==> before.contains(k),
{
    before.to_multiset_ensures();
    after.to_multiset_ensures();
    before.lemma_multiset_has_no_duplicates();
    after.lemma_multiset_has_no_duplicates_conv();
    assert forall|k: u64| after.contains(k) <==> before.contains(k) by {
        assert(after.contains(k) <==> after.to_multiset().count(k) > 0);
        assert(before.contains(k) <==> before.to_multiset().count(k) > 0);
    }
}

/// Calls `sort` of the standard slice on a vector of keys. The standard
/// library documents that afterwards the slice holds the same elements in
/// ascending order; both are taken on trust here.
#[verifier::external_body]
fn sort_keys(v: &mut Vec<u64>)
    ensures
        final(v)@.to_multiset() == old(v)@.to_multiset(),
        forall|i: int, j: int| 0 <= i <= j < final(v)@.len() ==> final(v)@[i] <= final(v)@[j],
{
    v.sort()
}

} // verus!
