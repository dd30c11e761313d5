//! One side of a limit order book: an ordered, price-indexed container of
//! levels with upsert, delete-on-zero-quantity, and top-N extraction.

use vstd::prelude::*;

verus! {

/// One resting level: a price and the quantity resting at it, both as
/// fixed-point integers (eight decimal places).
#[derive(Clone, Copy, PartialEq, Eq, Structural, Debug)]
pub struct PriceLevel {
    pub price: u64,
    pub quantity: u64,
}

/// Which side of the book a store holds; it fixes the sort order.
#[derive(Clone, Copy, PartialEq, Eq, Structural, Debug)]
pub enum Side {
    Bid,
    Ask,
}

/// Rank order for a side: bids best-first means descending by price,
/// asks ascending.
pub open spec fn better(side: Side, a: u64, b: u64) -> bool {
    match side {
        Side::Bid => a > b,
        Side::Ask => a < b,
    }
}

/// Strictly sorted best-first: implies all prices are distinct.
pub open spec fn sorted_strict(side: Side, s: Seq<PriceLevel>) -> bool {
    forall|i: int, j: int| 0 <= i < j < s.len() ==> better(side, s[i].price, s[j].price)
}

/// Every stored level has a positive quantity; zero is a deletion marker
/// in messages and never persists.
pub open spec fn all_positive(s: Seq<PriceLevel>) -> bool {
    forall|i: int| 0 <= i < s.len() ==> s[i].quantity > 0
}

/// The quantity resting at price `p`, reading the first matching level.
pub open spec fn qty_of(s: Seq<PriceLevel>, p: u64) -> Option<u64>
    decreases s.len(),
{
    if s.len() == 0 {
        None
    } else if s[0].price == p {
        Some(s[0].quantity)
    } else {
        qty_of(s.skip(1), p)
    }
}

/// Canonical effect of `upsert` on a sorted sequence: remove any level at
/// `p`, then insert `(p, q)` at its rank if `q > 0`.
pub open spec fn upsert_seq(s: Seq<PriceLevel>, side: Side, p: u64, q: u64) -> Seq<PriceLevel>
    decreases s.len(),
{
    let l = PriceLevel { price: p, quantity: q };
    if s.len() == 0 {
        if q > 0 { seq![l] } else { Seq::empty() }
    } else if s[0].price == p {
        if q > 0 { seq![l] + s.skip(1) } else { s.skip(1) }
    } else if better(side, p, s[0].price) {
        if q > 0 { seq![l] + s } else { s }
    } else {
        seq![s[0]] + upsert_seq(s.skip(1), side, p, q)
    }
}

pub proof fn lemma_skip_step(s: Seq<PriceLevel>, i: int)
    requires
        0 <= i < s.len(),
    ensures
        s.skip(i) == seq![s[i]] + s.skip(i + 1),
        s.skip(i).skip(1) == s.skip(i + 1),
{
    assert(s.skip(i) =~= seq![s[i]] + s.skip(i + 1));
    assert(s.skip(i).skip(1) =~= s.skip(i + 1));
}

/// A price is resting somewhere iff `qty_of` finds it.
pub proof fn lemma_qty_of_contains(s: Seq<PriceLevel>, p: u64)
    ensures
        qty_of(s, p).is_some() <==> exists|i: int| 0 <= i < s.len() && s[i].price == p,
    decreases s.len(),
{
    if s.len() == 0 {
    } else if s[0].price == p {
        assert(s[0].price == p);
    } else {
        lemma_qty_of_contains(s.skip(1), p);
        if qty_of(s, p).is_some() {
            let i = choose|i: int| 0 <= i < s.skip(1).len() && s.skip(1)[i].price == p;
            assert(s[i + 1].price == p);
        }
        if exists|i: int| 0 <= i < s.len() && s[i].price == p {
            let i = choose|i: int| 0 <= i < s.len() && s[i].price == p;
            assert(i != 0);
            assert(s.skip(1)[i - 1].price == p);
        }
    }
}

/// In a sorted store the head is the best: no resting price outranks it.
pub proof fn lemma_sorted_head_is_best(side: Side, s: Seq<PriceLevel>)
    requires
        sorted_strict(side, s),
        s.len() > 0,
    ensures
        forall|p: u64| qty_of(s, p).is_some() ==> !better(side, p, s[0].price),
        qty_of(s, s[0].price) == Some(s[0].quantity),
{
    assert forall|p: u64| qty_of(s, p).is_some() implies !better(side, p, s[0].price) by {
        lemma_qty_of_contains(s, p);
        let i = choose|i: int| 0 <= i < s.len() && s[i].price == p;
        if i > 0 {
            assert(better(side, s[0].price, p));
        }
    }
}

/// `upsert_seq` keeps the store sorted and positive, and rewrites exactly
/// the entry at `p`.
pub proof fn lemma_upsert_seq_props(s: Seq<PriceLevel>, side: Side, p: u64, q: u64)
    requires
        sorted_strict(side, s),
    ensures
        sorted_strict(side, upsert_seq(s, side, p, q)),
        all_positive(s) ==> all_positive(upsert_seq(s, side, p, q)),
        forall|p2: u64| #![auto] qty_of(upsert_seq(s, side, p, q), p2) == (if p2 == p {
            if q > 0 { Some(q) } else { None::<u64> }
        } else {
            qty_of(s, p2)
        }),
    decreases s.len(),
{
    let r = upsert_seq(s, side, p, q);
    let l = PriceLevel { price: p, quantity: q };
    if s.len() == 0 {
        if q > 0 {
            assert(qty_of(r, p) == Some(q));
            assert forall|p2: u64| p2 != p implies qty_of(r, p2) == qty_of(s, p2) by {
                assert(qty_of(r.skip(1), p2) == None::<u64>);
            }
        }
    } else if s[0].price == p {
        assert forall|j: int| 0 <= j < s.skip(1).len() implies better(side, p, s.skip(1)[j].price) by {
            assert(s.skip(1)[j] == s[j + 1]);
        }
        if q > 0 {
            assert(r == seq![l] + s.skip(1));
            assert forall|i: int, j: int| 0 <= i < j < r.len() implies better(side, r[i].price, r[j].price) by {
                if i > 0 {
                    assert(r[i] == s[i]);
                    assert(r[j] == s[j]);
                }
            }
            assert(r[0] == l);
            assert(qty_of(r, p) == Some(q));
            assert forall|p2: u64| p2 != p implies qty_of(r, p2) == qty_of(s, p2) by {
                assert(r.skip(1) =~= s.skip(1));
                assert(qty_of(r, p2) == qty_of(r.skip(1), p2));
                assert(qty_of(s, p2) == qty_of(s.skip(1), p2));
            }
        } else {
            assert forall|p2: u64| p2 != p implies qty_of(r, p2) == qty_of(s, p2) by {
                assert(qty_of(s, p2) == qty_of(s.skip(1), p2));
            }
            lemma_qty_of_contains(s.skip(1), p);
            assert forall|i: int| 0 <= i < s.skip(1).len() implies s.skip(1)[i].price != p by {
                assert(s.skip(1)[i] == s[i + 1]);
            }
            assert(qty_of(r, p).is_none());
        }
    } else if better(side, p, s[0].price) {
        assert forall|i: int| 0 <= i < s.len() implies s[i].price != p by {
            if i > 0 {
                assert(better(side, s[0].price, s[i].price));
            }
        }
        lemma_qty_of_contains(s, p);
        if q > 0 {
            assert(r == seq![l] + s);
            assert forall|i: int, j: int| 0 <= i < j < r.len() implies better(side, r[i].price, r[j].price) by {
                if i > 0 {
                    assert(r[i] == s[i - 1]);
                    assert(r[j] == s[j - 1]);
                } else {
                    assert(r[j] == s[j - 1]);
                    if j > 1 {
                        assert(better(side, s[0].price, s[j - 1].price));
                    }
                }
            }
            assert(r[0] == l);
            assert(qty_of(r, p) == Some(q));
            assert forall|p2: u64| p2 != p implies qty_of(r, p2) == qty_of(s, p2) by {
                assert(r.skip(1) =~= s);
                assert(qty_of(r, p2) == qty_of(r.skip(1), p2));
            }
        } else {
            assert(r == s);
            assert(qty_of(r, p).is_none());
        }
    } else {
        let s1 = s.skip(1);
        assert forall|i: int, j: int| 0 <= i < j < s1.len() implies better(side, s1[i].price, s1[j].price) by {
            assert(s1[i] == s[i + 1]);
            assert(s1[j] == s[j + 1]);
        }
        lemma_upsert_seq_props(s1, side, p, q);
        let r1 = upsert_seq(s1, side, p, q);
        assert(r == seq![s[0]] + r1);
        // the head outranks everything in r1
        assert forall|j: int| 0 <= j < r1.len() implies better(side, s[0].price, r1[j].price) by {
            lemma_qty_of_contains(r1, r1[j].price);
            assert(qty_of(r1, r1[j].price).is_some());
            if r1[j].price == p {
                assert(better(side, s[0].price, p));
            } else {
                assert(qty_of(s1, r1[j].price).is_some());
                lemma_qty_of_contains(s1, r1[j].price);
                let k = choose|k: int| 0 <= k < s1.len() && s1[k].price == r1[j].price;
                assert(s1[k] == s[k + 1]);
                assert(better(side, s[0].price, s[k + 1].price));
            }
        }
        assert forall|i: int, j: int| 0 <= i < j < r.len() implies better(side, r[i].price, r[j].price) by {
            if i > 0 {
                assert(r[i] == r1[i - 1]);
                assert(r[j] == r1[j - 1]);
            } else {
                assert(r[j] == r1[j - 1]);
            }
        }
        if all_positive(s) {
            assert forall|i: int| 0 <= i < s1.len() implies s1[i].quantity > 0 by {
                assert(s1[i] == s[i + 1]);
            }
            assert forall|i: int| 0 <= i < r.len() implies r[i].quantity > 0 by {
                if i > 0 {
                    assert(r[i] == r1[i - 1]);
                }
            }
        }
        assert forall|p2: u64| #![auto] qty_of(r, p2) == (if p2 == p {
            if q > 0 { Some(q) } else { None::<u64> }
        } else {
            qty_of(s, p2)
        }) by {
            assert(r.skip(1) =~= r1);
            assert(r[0] == s[0]);
            if p2 == s[0].price {
                assert(qty_of(r, p2) == Some(s[0].quantity));
                assert(qty_of(s, p2) == Some(s[0].quantity));
            } else {
                assert(qty_of(r, p2) == qty_of(r.skip(1), p2));
                assert(qty_of(s, p2) == qty_of(s1, p2));
            }
        }
    }
}

/// Two sorted stores that agree on every price's resting quantity are the
/// same store: the sorted representation is canonical.
pub proof fn lemma_sorted_representation(side: Side, s1: Seq<PriceLevel>, s2: Seq<PriceLevel>)
    requires
        sorted_strict(side, s1),
        sorted_strict(side, s2),
        forall|p: u64| qty_of(s1, p) == qty_of(s2, p),
    ensures
        s1 == s2,
    decreases s1.len(),
{
    if s1.len() == 0 {
        if s2.len() > 0 {
            assert(qty_of(s2, s2[0].price) == Some(s2[0].quantity));
            lemma_qty_of_contains(s1, s2[0].price);
        }
        assert(s1 =~= s2);
    } else if s2.len() == 0 {
        assert(qty_of(s1, s1[0].price) == Some(s1[0].quantity));
        lemma_qty_of_contains(s2, s1[0].price);
    } else {
        let p1 = s1[0].price;
        let p2 = s2[0].price;
        assert(qty_of(s2, p2) == Some(s2[0].quantity));
        assert(qty_of(s1, p1) == Some(s1[0].quantity));
        lemma_qty_of_contains(s1, p2);
        lemma_qty_of_contains(s2, p1);
        let i = choose|i: int| 0 <= i < s1.len() && s1[i].price == p2;
        let j = choose|j: int| 0 <= j < s2.len() && s2[j].price == p1;
        if i > 0 {
            assert(better(side, p1, p2));
        }
        if j > 0 {
            assert(better(side, p2, p1));
        }
        assert(p1 == p2);
        assert(s1[0].quantity == s2[0].quantity);
        assert forall|p: u64| qty_of(s1.skip(1), p) == qty_of(s2.skip(1), p) by {
            if p == p1 {
                lemma_qty_of_contains(s1.skip(1), p);
                lemma_qty_of_contains(s2.skip(1), p);
                if qty_of(s1.skip(1), p).is_some() {
                    let k = choose|k: int| 0 <= k < s1.skip(1).len() && s1.skip(1)[k].price == p;
                    assert(s1.skip(1)[k] == s1[k + 1]);
                    assert(better(side, p1, s1[k + 1].price));
                }
                if qty_of(s2.skip(1), p).is_some() {
                    let k = choose|k: int| 0 <= k < s2.skip(1).len() && s2.skip(1)[k].price == p;
                    assert(s2.skip(1)[k] == s2[k + 1]);
                    assert(better(side, p2, s2[k + 1].price));
                }
            } else {
                assert(qty_of(s1, p) == qty_of(s1.skip(1), p));
                assert(qty_of(s2, p) == qty_of(s2.skip(1), p));
            }
        }
        assert forall|a: int, b: int| 0 <= a < b < s1.skip(1).len() implies better(
            side,
            s1.skip(1)[a].price,
            s1.skip(1)[b].price,
        ) by {
            assert(s1.skip(1)[a] == s1[a + 1]);
            assert(s1.skip(1)[b] == s1[b + 1]);
        }
        assert forall|a: int, b: int| 0 <= a < b < s2.skip(1).len() implies better(
            side,
            s2.skip(1)[a].price,
            s2.skip(1)[b].price,
        ) by {
            assert(s2.skip(1)[a] == s2[a + 1]);
            assert(s2.skip(1)[b] == s2[b + 1]);
        }
        lemma_sorted_representation(side, s1.skip(1), s2.skip(1));
        assert forall|k: int| 0 <= k < s1.len() implies s1[k] == s2[k] by {
            if k > 0 {
                assert(s1[k] == s1.skip(1)[k - 1]);
                assert(s2[k] == s2.skip(1)[k - 1]);
            }
        }
        assert(s1 =~= s2);
    }
}

/// Law: for any price, a zero-quantity upsert after `upsert(p, q > 0)`
/// removes `p`, and leaves exactly the store that a single removal would.
pub proof fn lemma_upsert_then_remove(s: Seq<PriceLevel>, side: Side, p: u64, q: u64)
    requires
        sorted_strict(side, s),
        q > 0,
    ensures
        qty_of(upsert_seq(upsert_seq(s, side, p, q), side, p, 0), p).is_none(),
        upsert_seq(upsert_seq(s, side, p, q), side, p, 0) == upsert_seq(s, side, p, 0),
{
    lemma_upsert_seq_props(s, side, p, q);
    let s1 = upsert_seq(s, side, p, q);
    lemma_upsert_seq_props(s1, side, p, 0);
    lemma_upsert_seq_props(s, side, p, 0);
    lemma_sorted_representation(side, upsert_seq(s1, side, p, 0), upsert_seq(s, side, p, 0));
}

/// Law: repeating an upsert (insertion or removal alike) is idempotent;
/// the store converges to the same state.
pub proof fn lemma_upsert_idempotent(s: Seq<PriceLevel>, side: Side, p: u64, q: u64)
    requires
        sorted_strict(side, s),
    ensures
        upsert_seq(upsert_seq(s, side, p, q), side, p, q) == upsert_seq(s, side, p, q),
{
    lemma_upsert_seq_props(s, side, p, q);
    let s1 = upsert_seq(s, side, p, q);
    lemma_upsert_seq_props(s1, side, p, q);
    lemma_sorted_representation(side, upsert_seq(s1, side, p, q), s1);
}

/// Effect of applying a batch of level changes in order: last write wins
/// per price within the batch.
pub open spec fn apply_seq(s: Seq<PriceLevel>, side: Side, ls: Seq<PriceLevel>) -> Seq<PriceLevel>
    decreases ls.len(),
{
    if ls.len() == 0 {
        s
    } else {
        apply_seq(upsert_seq(s, side, ls[0].price, ls[0].quantity), side, ls.skip(1))
    }
}

/// A batch application keeps the store sorted and positive.
pub proof fn lemma_apply_seq_wf(s: Seq<PriceLevel>, side: Side, ls: Seq<PriceLevel>)
    requires
        sorted_strict(side, s),
        all_positive(s),
    ensures
        sorted_strict(side, apply_seq(s, side, ls)),
        all_positive(apply_seq(s, side, ls)),
    decreases ls.len(),
{
    if ls.len() == 0 {
    } else {
        lemma_upsert_seq_props(s, side, ls[0].price, ls[0].quantity);
        lemma_apply_seq_wf(upsert_seq(s, side, ls[0].price, ls[0].quantity), side, ls.skip(1));
    }
}

/// One side of one book: levels strictly sorted best-first, prices unique,
/// quantities positive, as `wf` states.
pub struct PriceLevelStore {
    side: Side,
    levels: Vec<PriceLevel>,
}

impl View for PriceLevelStore {
    type V = Seq<PriceLevel>;

    closed spec fn view(&self) -> Seq<PriceLevel> {
        self.levels@
    }
}

impl PriceLevelStore {
    pub closed spec fn spec_side(&self) -> Side {
        self.side
    }

    pub open spec fn wf(&self) -> bool {
        &&& sorted_strict(self.spec_side(), self@)
        &&& all_positive(self@)
    }

    pub fn new(side: Side) -> (r: PriceLevelStore)
        ensures
            r.wf(),
            r.spec_side() == side,
            r@ =~= Seq::<PriceLevel>::empty(),
    {
        PriceLevelStore { side, levels: Vec::new() }
    }

    pub fn side(&self) -> (r: Side)
        ensures
            r == self.spec_side(),
    {
        self.side
    }

    pub fn len(&self) -> (r: usize)
        ensures
            r == self@.len(),
    {
        self.levels.len()
    }

    /// Inserts or replaces the level at `price`; a non-positive quantity
    /// removes it instead (removing an absent price is a no-op).
    pub fn upsert(&mut self, price: u64, quantity: u64)
        requires
            old(self).wf(),
        ensures
            final(self).wf(),
            final(self).spec_side() == old(self).spec_side(),
            final(self)@ == upsert_seq(old(self)@, old(self).spec_side(), price, quantity),
    {
        let ghost orig = self.levels@;
        let ghost side = self.side;
        let n = self.levels.len();
        let lvl = PriceLevel { price, quantity };
        let mut out: Vec<PriceLevel> = Vec::new();
        let mut done = false;
        let mut i: usize = 0;
        proof {
            assert(orig.skip(0) =~= orig);
            assert(Seq::<PriceLevel>::empty() + upsert_seq(orig, side, price, quantity)
                =~= upsert_seq(orig, side, price, quantity));
        }
        while i < n
            invariant
                0 <= i <= n,
                n == orig.len(),
                self.levels@ == orig,
                self.side == side,
                lvl == (PriceLevel { price, quantity }),
                sorted_strict(side, orig),
                if done {
                    upsert_seq(orig, side, price, quantity) == out@ + orig.skip(i as int)
                } else {
                    upsert_seq(orig, side, price, quantity) == out@ + upsert_seq(
                        orig.skip(i as int),
                        side,
                        price,
                        quantity,
                    )
                },
            decreases n - i,
        {
            let cur = self.levels[i];
            let ghost out0 = out@;
            let ghost rest = orig.skip(i as int);
            let ghost rest1 = orig.skip(i as int + 1);
            proof {
                lemma_skip_step(orig, i as int);
                assert(rest[0] == cur);
                assert(rest.len() > 0);
            }
            if done {
                out.push(cur);
                proof {
                    assert(out@ =~= out0 + seq![cur]);
                    assert(out0 + (seq![cur] + rest1) =~= (out0 + seq![cur]) + rest1);
                }
            } else if cur.price == price {
                if quantity > 0 {
                    out.push(lvl);
                    proof {
                        assert(upsert_seq(rest, side, price, quantity) == seq![lvl] + rest.skip(1));
                        assert(out@ =~= out0 + seq![lvl]);
                        assert(out0 + (seq![lvl] + rest1) =~= (out0 + seq![lvl]) + rest1);
                    }
                } else {
                    proof {
                        assert(upsert_seq(rest, side, price, quantity) == rest.skip(1));
                    }
                }
                done = true;
            } else if better_exec(self.side, price, cur.price) {
                if quantity > 0 {
                    out.push(lvl);
                    out.push(cur);
                    proof {
                        assert(upsert_seq(rest, side, price, quantity) == seq![lvl] + rest);
                        assert(out@ =~= (out0 + seq![lvl]) + seq![cur]);
                        assert(out0 + (seq![lvl] + rest) =~= ((out0 + seq![lvl]) + seq![cur])
                            + rest1);
                    }
                } else {
                    out.push(cur);
                    proof {
                        assert(upsert_seq(rest, side, price, quantity) == rest);
                        assert(out@ =~= out0 + seq![cur]);
                        assert(out0 + rest =~= (out0 + seq![cur]) + rest1);
                    }
                }
                done = true;
            } else {
                out.push(cur);
                proof {
                    let tail = upsert_seq(rest1, side, price, quantity);
                    assert(rest.skip(1) == rest1);
                    assert(upsert_seq(rest, side, price, quantity) == seq![cur] + tail);
                    assert(out@ =~= out0 + seq![cur]);
                    assert(out0 + (seq![cur] + tail) =~= (out0 + seq![cur]) + tail);
                }
            }
            i = i + 1;
        }
        proof {
            assert(orig.skip(n as int) =~= Seq::<PriceLevel>::empty());
        }
        let ghost outn = out@;
        if !done {
            if quantity > 0 {
                out.push(lvl);
                proof {
                    assert(upsert_seq(Seq::<PriceLevel>::empty(), side, price, quantity)
                        == seq![lvl]);
                    assert(out@ =~= outn + seq![lvl]);
                }
            } else {
                proof {
                    assert(upsert_seq(Seq::<PriceLevel>::empty(), side, price, quantity)
                        =~= Seq::<PriceLevel>::empty());
                    assert(outn + Seq::<PriceLevel>::empty() =~= outn);
                }
            }
        } else {
            proof {
                assert(outn + Seq::<PriceLevel>::empty() =~= outn);
            }
        }
        proof {
            assert(out@ == upsert_seq(orig, side, price, quantity));
            lemma_upsert_seq_props(orig, side, price, quantity);
        }
        self.levels = out;
    }

    /// Applies a batch of changes via `upsert`, in the order given.
    pub fn apply_levels(&mut self, ls: &Vec<PriceLevel>)
        requires
            old(self).wf(),
        ensures
            final(self).wf(),
            final(self).spec_side() == old(self).spec_side(),
            final(self)@ == apply_seq(old(self)@, old(self).spec_side(), ls@),
    {
        let ghost orig = self@;
        let ghost side = self.spec_side();
        let n = ls.len();
        let mut i: usize = 0;
        proof {
            assert(ls@.skip(0) =~= ls@);
        }
        while i < n
            invariant
                0 <= i <= n,
                n == ls@.len(),
                self.wf(),
                self.spec_side() == side,
                apply_seq(orig, side, ls@) == apply_seq(self@, side, ls@.skip(i as int)),
            decreases n - i,
        {
            let ghost pre = self@;
            let ghost rest = ls@.skip(i as int);
            proof {
                lemma_skip_step(ls@, i as int);
                assert(rest[0] == ls@[i as int]);
                assert(apply_seq(pre, side, rest) == apply_seq(
                    upsert_seq(pre, side, rest[0].price, rest[0].quantity),
                    side,
                    rest.skip(1),
                ));
            }
            self.upsert(ls[i].price, ls[i].quantity);
            i = i + 1;
        }
        proof {
            assert(ls@.skip(n as int) =~= Seq::<PriceLevel>::empty());
        }
    }

    /// The single best level, `None` on an empty side.
    pub fn best(&self) -> (r: Option<PriceLevel>)
        requires
            self.wf(),
        ensures
            match r {
                Some(l) => self@.len() > 0 && l == self@[0] && l.quantity > 0 && qty_of(
                    self@,
                    l.price,
                ) == Some(l.quantity) && forall|p: u64|
                    qty_of(self@, p).is_some() ==> !better(self.spec_side(), p, l.price),
                None => self@.len() == 0,
            },
    {
        if self.levels.len() == 0 {
            None
        } else {
            proof {
                lemma_sorted_head_is_best(self.side, self.levels@);
            }
            Some(self.levels[0])
        }
    }

    /// The `n` best levels in rank order; never more than `n`, and exactly
    /// the stored prefix.
    pub fn top_n(&self, n: usize) -> (r: Vec<PriceLevel>)
        requires
            self.wf(),
        ensures
            r@.len() <= n,
            r@ == self@.take(if n <= self@.len() { n as int } else { self@.len() as int }),
            sorted_strict(self.spec_side(), r@),
            all_positive(r@),
    {
        let m = if n <= self.levels.len() {
            n
        } else {
            self.levels.len()
        };
        let mut out: Vec<PriceLevel> = Vec::new();
        let mut i: usize = 0;
        while i < m
            invariant
                0 <= i <= m,
                m <= self.levels.len(),
                out@ == self.levels@.take(i as int),
            decreases m - i,
        {
            out.push(self.levels[i]);
            proof {
                assert(self.levels@.take(i as int + 1) =~= self.levels@.take(i as int).push(
                    self.levels@[i as int],
                ));
            }
            i = i + 1;
        }
        proof {
            let t = self@.take(m as int);
            assert forall|a: int, b: int| 0 <= a < b < t.len() implies better(
                self.spec_side(),
                t[a].price,
                t[b].price,
            ) by {
                assert(t[a] == self@[a]);
                assert(t[b] == self@[b]);
            }
            assert forall|a: int| 0 <= a < t.len() implies t[a].quantity > 0 by {
                assert(t[a] == self@[a]);
            }
        }
        out
    }

    /// Drops every level ranked beyond `n`, bounding memory after a
    /// mutation batch.
    pub fn truncate_depth(&mut self, n: usize)
        requires
            old(self).wf(),
        ensures
            final(self).wf(),
            final(self).spec_side() == old(self).spec_side(),
            final(self)@ == old(self)@.take(
                if n <= old(self)@.len() { n as int } else { old(self)@.len() as int },
            ),
    {
        let ghost orig = self@;
        if n < self.levels.len() {
            self.levels.truncate(n);
        }
        proof {
            if n >= orig.len() {
                assert(self@ =~= orig.take(orig.len() as int));
            }
            let t = self@;
            assert forall|a: int, b: int| 0 <= a < b < t.len() implies better(
                self.spec_side(),
                t[a].price,
                t[b].price,
            ) by {
                assert(t[a] == orig[a]);
                assert(t[b] == orig[b]);
            }
            assert forall|a: int| 0 <= a < t.len() implies t[a].quantity > 0 by {
                assert(t[a] == orig[a]);
            }
        }
    }
}

/// Executable twin of `better`.
pub fn better_exec(side: Side, a: u64, b: u64) -> (r: bool)
    ensures
        r == better(side, a, b),
{
    match side {
        Side::Bid => a > b,
        Side::Ask => a < b,
    }
}

} // verus!
