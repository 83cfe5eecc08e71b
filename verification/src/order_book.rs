//! The limit order book: two strictly ordered sides of price levels, a
//! monotonic update watermark, and the operations that merge a snapshot and
//! incremental diffs into it.
//!
//! Each side is a vector of levels kept strictly sorted by price — bids
//! descending (best first), asks ascending (best first) — with every retained
//! quantity positive. A diff change with quantity zero is a tombstone: it
//! removes the price from the side, silently when absent.

use vstd::prelude::*;
use vstd::rwlock::{RwLock, RwLockPredicate};
use crate::{DEPTH_LIMIT, MAX_UNITS};
use crate::parse::{parse_units, valid_number, number_units, ParseError};

verus! {

/// A finite price held as fixed-point units; the ordering key of a side.
#[derive(Debug, Clone, Copy, PartialEq, Eq, Structural)]
pub struct Price(pub u64);

impl Price {
    pub fn new(value: u64) -> (r: Price)
        requires
            value <= MAX_UNITS,
        ensures
            r.0 == value,
    {
        Price(value)
    }
}

/// One resting level: price, aggregate quantity, and when it was observed.
#[derive(Debug, Clone, Copy, PartialEq, Eq, Structural)]
pub struct OrderBookLevel {
    pub price: Price,
    pub quantity: u64,
    pub timestamp: u64,
}

impl OrderBookLevel {
    pub fn new(price: u64, quantity: u64, timestamp: u64) -> (r: OrderBookLevel)
        requires
            price <= MAX_UNITS,
            quantity <= MAX_UNITS,
        ensures
            r == (OrderBookLevel { price: Price(price), quantity, timestamp }),
    {
        OrderBookLevel { price: Price(price), quantity, timestamp }
    }
}

/// Side ordering: on the bid side (`desc`) a greater price comes first, on
/// the ask side a lesser one.
pub open spec fn comes_before(a: u64, b: u64, desc: bool) -> bool {
    if desc {
        a > b
    } else {
        a < b
    }
}

/// Well-formed side: strictly sorted by price, quantities positive, all
/// values within range.
pub open spec fn side_wf(s: Seq<OrderBookLevel>, desc: bool) -> bool {
    &&& forall|i: int, j: int|
        #![trigger s[i], s[j]]
        0 <= i < j < s.len() ==> comes_before(s[i].price.0, s[j].price.0, desc)
    &&& forall|i: int|
        0 <= i < s.len() ==> 0 < (#[trigger] s[i]).quantity <= MAX_UNITS && s[i].price.0
            <= MAX_UNITS
}

/// The side with every level at price `p` taken out, order kept.
pub open spec fn spec_remove(s: Seq<OrderBookLevel>, p: u64) -> Seq<OrderBookLevel>
    decreases s.len(),
{
    if s.len() == 0 {
        s
    } else if s[0].price.0 == p {
        spec_remove(s.skip(1), p)
    } else {
        seq![s[0]] + spec_remove(s.skip(1), p)
    }
}

/// The side with `l` inserted at its sorted place, replacing an equal price.
pub open spec fn spec_upsert(s: Seq<OrderBookLevel>, l: OrderBookLevel, desc: bool) -> Seq<
    OrderBookLevel,
>
    decreases s.len(),
{
    if s.len() == 0 {
        seq![l]
    } else if comes_before(l.price.0, s[0].price.0, desc) {
        seq![l] + s
    } else if l.price.0 == s[0].price.0 {
        seq![l] + s.skip(1)
    } else {
        seq![s[0]] + spec_upsert(s.skip(1), l, desc)
    }
}

/// The first level at price `p`, if any; on a well-formed side, the only one.
pub open spec fn level_of(s: Seq<OrderBookLevel>, p: u64) -> Option<OrderBookLevel>
    decreases s.len(),
{
    if s.len() == 0 {
        None
    } else if s[0].price.0 == p {
        Some(s[0])
    } else {
        level_of(s.skip(1), p)
    }
}

/// One diff change applied to a side: quantity zero removes the price,
/// anything else inserts or replaces the level, stamped `ts`.
pub open spec fn spec_apply_change(
    s: Seq<OrderBookLevel>,
    c: (u64, u64),
    ts: u64,
    desc: bool,
) -> Seq<OrderBookLevel> {
    if c.1 == 0 {
        spec_remove(s, c.0)
    } else {
        spec_upsert(s, OrderBookLevel { price: Price(c.0), quantity: c.1, timestamp: ts }, desc)
    }
}

/// A whole change list applied left to right.
pub open spec fn spec_apply_changes(
    s: Seq<OrderBookLevel>,
    cs: Seq<(u64, u64)>,
    ts: u64,
    desc: bool,
) -> Seq<OrderBookLevel>
    decreases cs.len(),
{
    if cs.len() == 0 {
        s
    } else {
        spec_apply_changes(spec_apply_change(s, cs[0], ts, desc), cs.skip(1), ts, desc)
    }
}

/// The quantity of the last change in `cs` that touches price `p`.
pub open spec fn last_change_qty(cs: Seq<(u64, u64)>, p: u64) -> Option<u64>
    decreases cs.len(),
{
    if cs.len() == 0 {
        None
    } else {
        match last_change_qty(cs.skip(1), p) {
            Some(q) => Some(q),
            None => if cs[0].0 == p {
                Some(cs[0].1)
            } else {
                None
            },
        }
    }
}

pub proof fn lemma_side_wf_skip(s: Seq<OrderBookLevel>, desc: bool)
    requires
        side_wf(s, desc),
        s.len() > 0,
    ensures
        side_wf(s.skip(1), desc),
{
    assert forall|i: int, j: int|
        0 <= i < j < s.skip(1).len() implies comes_before(
        #[trigger] s.skip(1)[i].price.0,
        #[trigger] s.skip(1)[j].price.0,
        desc,
    ) by {
        assert(s.skip(1)[i] == s[i + 1]);
        assert(s.skip(1)[j] == s[j + 1]);
    }
    assert forall|i: int| 0 <= i < s.skip(1).len() implies 0 < (#[trigger] s.skip(1)[i]).quantity
        <= MAX_UNITS && s.skip(1)[i].price.0 <= MAX_UNITS by {
        assert(s.skip(1)[i] == s[i + 1]);
    }
}

/// Where the scan stopped pins down the value of `spec_upsert`.
pub proof fn lemma_upsert_at(s: Seq<OrderBookLevel>, l: OrderBookLevel, desc: bool, i: int)
    requires
        side_wf(s, desc),
        0 <= i <= s.len(),
        forall|k: int| 0 <= k < i ==> comes_before((#[trigger] s[k]).price.0, l.price.0, desc),
        i < s.len() ==> !comes_before(s[i].price.0, l.price.0, desc),
    ensures
        i < s.len() && s[i].price.0 == l.price.0 ==> spec_upsert(s, l, desc) == s.take(i)
            + seq![l] + s.skip(i + 1),
        !(i < s.len() && s[i].price.0 == l.price.0) ==> spec_upsert(s, l, desc) == s.take(i)
            + seq![l] + s.skip(i),
    decreases i,
{
    if i == 0 {
        if s.len() == 0 {
            assert(spec_upsert(s, l, desc) =~= s.take(0) + seq![l] + s.skip(0));
        } else if s[0].price.0 == l.price.0 {
            assert(!comes_before(l.price.0, s[0].price.0, desc));
            assert(spec_upsert(s, l, desc) =~= s.take(0) + seq![l] + s.skip(1));
        } else {
            assert(comes_before(l.price.0, s[0].price.0, desc));
            assert(spec_upsert(s, l, desc) =~= s.take(0) + seq![l] + s.skip(0));
        }
    } else {
        assert(comes_before(s[0].price.0, l.price.0, desc));
        assert(!comes_before(l.price.0, s[0].price.0, desc));
        assert(l.price.0 != s[0].price.0);
        lemma_side_wf_skip(s, desc);
        assert forall|k: int| 0 <= k < i - 1 implies comes_before(
            (#[trigger] s.skip(1)[k]).price.0,
            l.price.0,
            desc,
        ) by {
            assert(s.skip(1)[k] == s[k + 1]);
        }
        if i - 1 < s.skip(1).len() {
            assert(s.skip(1)[i - 1] == s[i]);
        }
        lemma_upsert_at(s.skip(1), l, desc, i - 1);
        if i < s.len() && s[i].price.0 == l.price.0 {
            assert(s.skip(1)[i - 1] == s[i]);
            assert(spec_upsert(s, l, desc) == seq![s[0]] + (s.skip(1).take(i - 1) + seq![l]
                + s.skip(1).skip(i)));
            assert(seq![s[0]] + (s.skip(1).take(i - 1) + seq![l] + s.skip(1).skip(i)) =~= s.take(i)
                + seq![l] + s.skip(i + 1));
        } else {
            assert(spec_upsert(s, l, desc) == seq![s[0]] + (s.skip(1).take(i - 1) + seq![l]
                + s.skip(1).skip(i - 1)));
            assert(seq![s[0]] + (s.skip(1).take(i - 1) + seq![l] + s.skip(1).skip(i - 1)) =~= s.take(
                i,
            ) + seq![l] + s.skip(i));
        }
    }
}

pub proof fn lemma_remove_absent(s: Seq<OrderBookLevel>, p: u64)
    requires
        forall|k: int| 0 <= k < s.len() ==> (#[trigger] s[k]).price.0 != p,
    ensures
        spec_remove(s, p) == s,
    decreases s.len(),
{
    if s.len() > 0 {
        assert forall|k: int| 0 <= k < s.skip(1).len() implies (#[trigger] s.skip(1)[k]).price.0
            != p by {
            assert(s.skip(1)[k] == s[k + 1]);
        }
        lemma_remove_absent(s.skip(1), p);
        assert(spec_remove(s, p) =~= s);
    }
}

/// Where the scan stopped pins down the value of `spec_remove`.
pub proof fn lemma_remove_at(s: Seq<OrderBookLevel>, p: u64, desc: bool, i: int)
    requires
        side_wf(s, desc),
        0 <= i <= s.len(),
        forall|k: int| 0 <= k < i ==> comes_before((#[trigger] s[k]).price.0, p, desc),
        i < s.len() ==> !comes_before(s[i].price.0, p, desc),
    ensures
        i < s.len() && s[i].price.0 == p ==> spec_remove(s, p) == s.take(i) + s.skip(i + 1),
        !(i < s.len() && s[i].price.0 == p) ==> spec_remove(s, p) == s,
    decreases i,
{
    if i == 0 {
        if s.len() == 0 {
        } else if s[0].price.0 == p {
            lemma_side_wf_skip(s, desc);
            assert forall|k: int| 0 <= k < s.skip(1).len() implies (#[trigger] s.skip(1)[k]).price.0
                != p by {
                assert(s.skip(1)[k] == s[k + 1]);
                assert(comes_before(s[0].price.0, s[k + 1].price.0, desc));
            }
            lemma_remove_absent(s.skip(1), p);
            assert(spec_remove(s, p) =~= s.take(0) + s.skip(1));
        } else {
            assert forall|k: int| 0 <= k < s.len() implies (#[trigger] s[k]).price.0 != p by {
                if k > 0 {
                    assert(comes_before(s[0].price.0, s[k].price.0, desc));
                }
            }
            lemma_remove_absent(s, p);
        }
    } else {
        assert(comes_before(s[0].price.0, p, desc));
        assert(s[0].price.0 != p);
        lemma_side_wf_skip(s, desc);
        assert forall|k: int| 0 <= k < i - 1 implies comes_before(
            (#[trigger] s.skip(1)[k]).price.0,
            p,
            desc,
        ) by {
            assert(s.skip(1)[k] == s[k + 1]);
        }
        if i - 1 < s.skip(1).len() {
            assert(s.skip(1)[i - 1] == s[i]);
        }
        lemma_remove_at(s.skip(1), p, desc, i - 1);
        if i < s.len() && s[i].price.0 == p {
            assert(s.skip(1)[i - 1] == s[i]);
            assert(spec_remove(s, p) == seq![s[0]] + (s.skip(1).take(i - 1) + s.skip(1).skip(i)));
            assert(seq![s[0]] + (s.skip(1).take(i - 1) + s.skip(1).skip(i)) =~= s.take(i) + s.skip(
                i + 1,
            ));
        } else {
            assert(spec_remove(s, p) == seq![s[0]] + s.skip(1));
            assert(seq![s[0]] + s.skip(1) =~= s);
        }
    }
}

/// Inserting a valid level keeps a side well formed; every element of the
/// result is the new level or one of the old ones.
pub proof fn lemma_upsert_wf(s: Seq<OrderBookLevel>, l: OrderBookLevel, desc: bool)
    requires
        side_wf(s, desc),
        0 < l.quantity <= MAX_UNITS,
        l.price.0 <= MAX_UNITS,
    ensures
        side_wf(spec_upsert(s, l, desc), desc),
        forall|k: int|
            0 <= k < spec_upsert(s, l, desc).len() ==> (#[trigger] spec_upsert(s, l, desc)[k]) == l
                || s.contains(spec_upsert(s, l, desc)[k]),
    decreases s.len(),
{
    let r = spec_upsert(s, l, desc);
    if s.len() == 0 {
    } else if comes_before(l.price.0, s[0].price.0, desc) {
        assert forall|i: int, j: int|
            0 <= i < j < r.len() implies comes_before(
            (#[trigger] r[i]).price.0,
            (#[trigger] r[j]).price.0,
            desc,
        ) by {
            if i > 0 {
                assert(r[i] == s[i - 1]);
                assert(r[j] == s[j - 1]);
            } else {
                assert(r[j] == s[j - 1]);
                if j - 1 > 0 {
                    assert(comes_before(s[0].price.0, s[j - 1].price.0, desc));
                }
            }
        }
        assert forall|k: int| 0 <= k < r.len() implies (#[trigger] r[k]) == l || s.contains(
            r[k],
        ) by {
            if k > 0 {
                assert(r[k] == s[k - 1]);
            }
        }
    } else if l.price.0 == s[0].price.0 {
        lemma_side_wf_skip(s, desc);
        assert forall|i: int, j: int|
            0 <= i < j < r.len() implies comes_before(
            (#[trigger] r[i]).price.0,
            (#[trigger] r[j]).price.0,
            desc,
        ) by {
            if i > 0 {
                assert(r[i] == s[i]);
                assert(r[j] == s[j]);
            } else {
                assert(r[j] == s[j]);
                assert(comes_before(s[0].price.0, s[j].price.0, desc));
            }
        }
        assert forall|k: int| 0 <= k < r.len() implies (#[trigger] r[k]) == l || s.contains(
            r[k],
        ) by {
            if k > 0 {
                assert(r[k] == s[k]);
            }
        }
    } else {
        lemma_side_wf_skip(s, desc);
        lemma_upsert_wf(s.skip(1), l, desc);
        let t = spec_upsert(s.skip(1), l, desc);
        assert forall|i: int, j: int|
            0 <= i < j < r.len() implies comes_before(
            (#[trigger] r[i]).price.0,
            (#[trigger] r[j]).price.0,
            desc,
        ) by {
            if i > 0 {
                assert(r[i] == t[i - 1]);
                assert(r[j] == t[j - 1]);
            } else {
                assert(r[j] == t[j - 1]);
                assert(t[j - 1] == l || s.skip(1).contains(t[j - 1]));
                if t[j - 1] == l {
                    assert(comes_before(s[0].price.0, l.price.0, desc));
                } else {
                    let m = choose|m: int|
                        0 <= m < s.skip(1).len() && s.skip(1)[m] == t[j - 1];
                    assert(s.skip(1)[m] == s[m + 1]);
                    assert(comes_before(s[0].price.0, s[m + 1].price.0, desc));
                }
            }
        }
        assert forall|i: int| 0 <= i < r.len() implies 0 < (#[trigger] r[i]).quantity <= MAX_UNITS
            && r[i].price.0 <= MAX_UNITS by {
            if i > 0 {
                assert(r[i] == t[i - 1]);
            }
        }
        assert forall|k: int| 0 <= k < r.len() implies (#[trigger] r[k]) == l || s.contains(
            r[k],
        ) by {
            if k > 0 {
                assert(r[k] == t[k - 1]);
                if t[k - 1] != l {
                    let m = choose|m: int|
                        0 <= m < s.skip(1).len() && s.skip(1)[m] == t[k - 1];
                    assert(s.skip(1)[m] == s[m + 1]);
                }
            }
        }
    }
}

/// Removing a price keeps a side well formed; every element of the result is
/// one of the old ones.
pub proof fn lemma_remove_wf(s: Seq<OrderBookLevel>, p: u64, desc: bool)
    requires
        side_wf(s, desc),
    ensures
        side_wf(spec_remove(s, p), desc),
        spec_remove(s, p).len() <= s.len(),
        forall|k: int|
            0 <= k < spec_remove(s, p).len() ==> s.contains(#[trigger] spec_remove(s, p)[k]),
    decreases s.len(),
{
    let r = spec_remove(s, p);
    if s.len() == 0 {
    } else {
        lemma_side_wf_skip(s, desc);
        lemma_remove_wf(s.skip(1), p, desc);
        let t = spec_remove(s.skip(1), p);
        if s[0].price.0 == p {
            assert forall|k: int| 0 <= k < r.len() implies s.contains(#[trigger] r[k]) by {
                assert(s.skip(1).contains(t[k]));
                let m = choose|m: int| 0 <= m < s.skip(1).len() && s.skip(1)[m] == t[k];
                assert(s.skip(1)[m] == s[m + 1]);
            }
        } else {
            assert forall|i: int, j: int|
                0 <= i < j < r.len() implies comes_before(
                (#[trigger] r[i]).price.0,
                (#[trigger] r[j]).price.0,
                desc,
            ) by {
                if i > 0 {
                    assert(r[i] == t[i - 1]);
                    assert(r[j] == t[j - 1]);
                } else {
                    assert(r[0] == s[0]);
                    assert(r[j] == t[j - 1]);
                    assert(s.skip(1).contains(t[j - 1]));
                    let m = choose|m: int|
                        0 <= m < s.skip(1).len() && s.skip(1)[m] == t[j - 1];
                    assert(s.skip(1)[m] == s[m + 1]);
                    assert(comes_before(s[0].price.0, s[m + 1].price.0, desc));
                }
            }
            assert forall|i: int| 0 <= i < r.len() implies 0 < (#[trigger] r[i]).quantity
                <= MAX_UNITS && r[i].price.0 <= MAX_UNITS by {
                if i > 0 {
                    assert(r[i] == t[i - 1]);
                } else {
                    assert(r[0] == s[0]);
                }
            }
            assert forall|k: int| 0 <= k < r.len() implies s.contains(#[trigger] r[k]) by {
                if k > 0 {
                    assert(r[k] == t[k - 1]);
                    assert(s.skip(1).contains(t[k - 1]));
                    let m = choose|m: int|
                        0 <= m < s.skip(1).len() && s.skip(1)[m] == t[k - 1];
                    assert(s.skip(1)[m] == s[m + 1]);
                } else {
                    assert(r[0] == s[0]);
                }
            }
        }
    }
}

#[verifier::rlimit(30)]
pub proof fn lemma_upsert_level_of(s: Seq<OrderBookLevel>, l: OrderBookLevel, desc: bool, p: u64)
    ensures
        level_of(spec_upsert(s, l, desc), p) == if p == l.price.0 {
            Some(l)
        } else {
            level_of(s, p)
        },
    decreases s.len(),
{
    let r = spec_upsert(s, l, desc);
    if s.len() == 0 {
        assert(r == seq![l]);
        assert(r[0] == l);
        assert(r.skip(1) =~= Seq::<OrderBookLevel>::empty());
        assert(level_of(r.skip(1), p) is None);
    } else if comes_before(l.price.0, s[0].price.0, desc) {
        assert(r == seq![l] + s);
        assert(r[0] == l);
        assert(r.skip(1) =~= s);
        assert(level_of(r.skip(1), p) == level_of(s, p));
    } else if l.price.0 == s[0].price.0 {
        assert(r == seq![l] + s.skip(1));
        assert(r[0] == l);
        assert(r.skip(1) =~= s.skip(1));
        assert(level_of(r.skip(1), p) == level_of(s.skip(1), p));
        if p != l.price.0 {
            assert(level_of(s, p) == level_of(s.skip(1), p));
        }
    } else {
        assert(r == seq![s[0]] + spec_upsert(s.skip(1), l, desc));
        assert(r[0] == s[0]);
        assert(r.skip(1) =~= spec_upsert(s.skip(1), l, desc));
        lemma_upsert_level_of(s.skip(1), l, desc, p);
        assert(level_of(r.skip(1), p) == level_of(spec_upsert(s.skip(1), l, desc), p));
    }
}

pub proof fn lemma_remove_level_of(s: Seq<OrderBookLevel>, p: u64, q: u64)
    ensures
        level_of(spec_remove(s, p), q) == if q == p {
            None::<OrderBookLevel>
        } else {
            level_of(s, q)
        },
    decreases s.len(),
{
    let r = spec_remove(s, p);
    if s.len() == 0 {
    } else if s[0].price.0 == p {
        lemma_remove_level_of(s.skip(1), p, q);
    } else {
        assert(r == seq![s[0]] + spec_remove(s.skip(1), p));
        assert(r.skip(1) =~= spec_remove(s.skip(1), p));
        lemma_remove_level_of(s.skip(1), p, q);
    }
}

/// The level a change list leaves at price `p` is decided by the last change
/// that touches `p`, or by the prior side when none does.
pub proof fn lemma_apply_changes_level_of(
    s: Seq<OrderBookLevel>,
    cs: Seq<(u64, u64)>,
    ts: u64,
    desc: bool,
    p: u64,
)
    ensures
        level_of(spec_apply_changes(s, cs, ts, desc), p) == (match last_change_qty(cs, p) {
            None => level_of(s, p),
            Some(q) => if q == 0 {
                None::<OrderBookLevel>
            } else {
                Some((OrderBookLevel { price: Price(p), quantity: q, timestamp: ts }))
            },
        }),
    decreases cs.len(),
{
    if cs.len() > 0 {
        let s1 = spec_apply_change(s, cs[0], ts, desc);
        lemma_apply_changes_level_of(s1, cs.skip(1), ts, desc, p);
        lemma_remove_level_of(s, cs[0].0, p);
        lemma_upsert_level_of(
            s,
            OrderBookLevel { price: Price(cs[0].0), quantity: cs[0].1, timestamp: ts },
            desc,
            p,
        );
    }
}

pub proof fn lemma_level_of_none(s: Seq<OrderBookLevel>, p: u64)
    requires
        forall|k: int| 0 <= k < s.len() ==> (#[trigger] s[k]).price.0 != p,
    ensures
        level_of(s, p) is None,
    decreases s.len(),
{
    if s.len() > 0 {
        assert forall|k: int| 0 <= k < s.skip(1).len() implies (#[trigger] s.skip(1)[k]).price.0
            != p by {
            assert(s.skip(1)[k] == s[k + 1]);
        }
        lemma_level_of_none(s.skip(1), p);
    }
}

pub proof fn lemma_level_of_mem(s: Seq<OrderBookLevel>, p: u64, x: OrderBookLevel)
    requires
        level_of(s, p) == Some(x),
    ensures
        exists|i: int| 0 <= i < s.len() && s[i] == x,
        x.price.0 == p,
    decreases s.len(),
{
    if s[0].price.0 == p {
        assert(s[0] == x);
    } else {
        lemma_level_of_mem(s.skip(1), p, x);
        let i = choose|i: int| 0 <= i < s.skip(1).len() && s.skip(1)[i] == x;
        assert(s[i + 1] == x);
    }
}

/// A well-formed side is determined by the level it holds at each price.
#[verifier::rlimit(30)]
pub proof fn lemma_side_determined(s1: Seq<OrderBookLevel>, s2: Seq<OrderBookLevel>, desc: bool)
    requires
        side_wf(s1, desc),
        side_wf(s2, desc),
        forall|p: u64| level_of(s1, p) == level_of(s2, p),
    ensures
        s1 == s2,
    decreases s1.len(),
{
    if s1.len() == 0 {
        if s2.len() > 0 {
            assert(level_of(s2, s2[0].price.0) == Some(s2[0]));
            assert(level_of(s1, s2[0].price.0) == level_of(s2, s2[0].price.0));
        }
        assert(s1 =~= s2);
    } else if s2.len() == 0 {
        assert(level_of(s1, s1[0].price.0) == Some(s1[0]));
        assert(level_of(s2, s1[0].price.0) == level_of(s1, s1[0].price.0));
    } else {
        let p1 = s1[0].price.0;
        let p2 = s2[0].price.0;
        assert(level_of(s1, p1) == Some(s1[0]));
        assert(level_of(s2, p2) == Some(s2[0]));
        if p1 != p2 {
            assert(level_of(s2, p1) == Some(s1[0]));
            lemma_level_of_mem(s2, p1, s1[0]);
            let i = choose|i: int| 0 <= i < s2.len() && s2[i] == s1[0];
            assert(i != 0);
            assert(comes_before(s2[0].price.0, s2[i].price.0, desc));
            assert(level_of(s1, p2) == Some(s2[0]));
            lemma_level_of_mem(s1, p2, s2[0]);
            let j = choose|j: int| 0 <= j < s1.len() && s1[j] == s2[0];
            assert(j != 0);
            assert(comes_before(s1[0].price.0, s1[j].price.0, desc));
            assert(false);
        }
        assert(s1[0] == s2[0]);
        lemma_side_wf_skip(s1, desc);
        lemma_side_wf_skip(s2, desc);
        assert forall|p: u64| level_of(s1.skip(1), p) == level_of(s2.skip(1), p) by {
            if p == p1 {
                assert forall|k: int| 0 <= k < s1.skip(1).len() implies (#[trigger] s1.skip(1)[
                    k]).price.0 != p by {
                    assert(s1.skip(1)[k] == s1[k + 1]);
                    assert(comes_before(s1[0].price.0, s1[k + 1].price.0, desc));
                }
                lemma_level_of_none(s1.skip(1), p);
                assert forall|k: int| 0 <= k < s2.skip(1).len() implies (#[trigger] s2.skip(1)[
                    k]).price.0 != p by {
                    assert(s2.skip(1)[k] == s2[k + 1]);
                    assert(comes_before(s2[0].price.0, s2[k + 1].price.0, desc));
                }
                lemma_level_of_none(s2.skip(1), p);
            } else {
                assert(level_of(s1, p) == level_of(s1.skip(1), p));
                assert(level_of(s2, p) == level_of(s2.skip(1), p));
            }
        }
        lemma_side_determined(s1.skip(1), s2.skip(1), desc);
        assert(s1.skip(1).len() == s2.skip(1).len());
        assert(s1.len() == s2.len());
        assert forall|k: int| 0 <= k < s1.len() implies s1[k] == s2[k] by {
            if k > 0 {
                assert(s1.skip(1)[k - 1] == s1[k]);
                assert(s2.skip(1)[k - 1] == s2[k]);
            }
        }
        assert(s1 =~= s2);
    }
}

/// Every change's price and quantity fit the fixed-point range.
pub open spec fn changes_in_range(cs: Seq<(u64, u64)>) -> bool {
    forall|i: int| 0 <= i < cs.len() ==> (#[trigger] cs[i]).0 <= MAX_UNITS && cs[i].1 <= MAX_UNITS
}

pub proof fn lemma_apply_changes_wf(
    s: Seq<OrderBookLevel>,
    cs: Seq<(u64, u64)>,
    ts: u64,
    desc: bool,
)
    requires
        side_wf(s, desc),
        changes_in_range(cs),
    ensures
        side_wf(spec_apply_changes(s, cs, ts, desc), desc),
    decreases cs.len(),
{
    if cs.len() > 0 {
        if cs[0].1 == 0 {
            lemma_remove_wf(s, cs[0].0, desc);
        } else {
            lemma_upsert_wf(
                s,
                OrderBookLevel { price: Price(cs[0].0), quantity: cs[0].1, timestamp: ts },
                desc,
            );
        }
        assert forall|i: int| 0 <= i < cs.skip(1).len() implies (#[trigger] cs.skip(1)[i]).0
            <= MAX_UNITS && cs.skip(1)[i].1 <= MAX_UNITS by {
            assert(cs.skip(1)[i] == cs[i + 1]);
        }
        lemma_apply_changes_wf(spec_apply_change(s, cs[0], ts, desc), cs.skip(1), ts, desc);
    }
}

pub proof fn lemma_apply_changes_push(
    s: Seq<OrderBookLevel>,
    cs: Seq<(u64, u64)>,
    c: (u64, u64),
    ts: u64,
    desc: bool,
)
    ensures
        spec_apply_changes(s, cs.push(c), ts, desc) == spec_apply_change(
            spec_apply_changes(s, cs, ts, desc),
            c,
            ts,
            desc,
        ),
    decreases cs.len(),
{
    if cs.len() == 0 {
        assert(cs.push(c)[0] == c);
        assert(cs.push(c).skip(1) =~= Seq::<(u64, u64)>::empty());
        assert(spec_apply_changes(s, cs.push(c), ts, desc) == spec_apply_changes(
            spec_apply_change(s, c, ts, desc),
            cs.push(c).skip(1),
            ts,
            desc,
        ));
        assert(spec_apply_changes(spec_apply_change(s, c, ts, desc), cs.push(c).skip(1), ts, desc)
            == spec_apply_change(s, c, ts, desc));
        assert(spec_apply_changes(s, cs, ts, desc) == s);
    } else {
        assert(cs.push(c)[0] == cs[0]);
        assert(cs.push(c).skip(1) =~= cs.skip(1).push(c));
        assert(spec_apply_changes(s, cs.push(c), ts, desc) == spec_apply_changes(
            spec_apply_change(s, cs[0], ts, desc),
            cs.skip(1).push(c),
            ts,
            desc,
        ));
        lemma_apply_changes_push(spec_apply_change(s, cs[0], ts, desc), cs.skip(1), c, ts, desc);
        assert(spec_apply_changes(s, cs, ts, desc) == spec_apply_changes(
            spec_apply_change(s, cs[0], ts, desc),
            cs.skip(1),
            ts,
            desc,
        ));
    }
}

/// Law: a diff change with quantity zero leaves its price absent from the
/// side, whether or not a level was resting there before.
pub proof fn lemma_zero_quantity_removes(s: Seq<OrderBookLevel>, p: u64, ts: u64, desc: bool)
    ensures
        level_of(spec_apply_change(s, (p, 0u64), ts, desc), p) is None,
{
    lemma_remove_level_of(s, p, p);
}

/// Law: applying the same change list twice yields the same side as applying
/// it once — each price ends at its last written quantity, not a sum.
pub proof fn lemma_apply_changes_idempotent(
    s: Seq<OrderBookLevel>,
    cs: Seq<(u64, u64)>,
    ts: u64,
    desc: bool,
)
    requires
        side_wf(s, desc),
        changes_in_range(cs),
    ensures
        spec_apply_changes(spec_apply_changes(s, cs, ts, desc), cs, ts, desc)
            == spec_apply_changes(s, cs, ts, desc),
{
    let once = spec_apply_changes(s, cs, ts, desc);
    let twice = spec_apply_changes(once, cs, ts, desc);
    lemma_apply_changes_wf(s, cs, ts, desc);
    lemma_apply_changes_wf(once, cs, ts, desc);
    assert forall|p: u64| level_of(twice, p) == level_of(once, p) by {
        lemma_apply_changes_level_of(s, cs, ts, desc, p);
        lemma_apply_changes_level_of(once, cs, ts, desc, p);
    }
    lemma_side_determined(twice, once, desc);
}

fn price_comes_before(a: u64, b: u64, desc: bool) -> (r: bool)
    ensures
        r == comes_before(a, b, desc),
{
    if desc {
        a > b
    } else {
        a < b
    }
}

/// Inserts or replaces one level at its sorted place on a side.
fn side_upsert(side: &mut Vec<OrderBookLevel>, level: OrderBookLevel, desc: bool)
    requires
        side_wf(old(side)@, desc),
        0 < level.quantity <= MAX_UNITS,
        level.price.0 <= MAX_UNITS,
    ensures
        final(side)@ == spec_upsert(old(side)@, level, desc),
        side_wf(final(side)@, desc),
{
    let ghost s0 = side@;
    let mut i: usize = 0;
    while i < side.len() && price_comes_before(side[i].price.0, level.price.0, desc)
        invariant
            i <= side@.len(),
            side@ == s0,
            side_wf(s0, desc),
            forall|k: int| 0 <= k < i ==> comes_before((#[trigger] s0[k]).price.0, level.price.0, desc),
        decreases side@.len() - i,
    {
        i += 1;
    }
    proof {
        lemma_upsert_at(s0, level, desc, i as int);
        lemma_upsert_wf(s0, level, desc);
    }
    if i < side.len() && side[i].price.0 == level.price.0 {
        let _replaced = side.remove(i);
        side.insert(i, level);
        proof {
            assert(side@ =~= s0.take(i as int) + seq![level] + s0.skip(i as int + 1));
        }
    } else {
        side.insert(i, level);
        proof {
            assert(side@ =~= s0.take(i as int) + seq![level] + s0.skip(i as int));
        }
    }
}

/// Removes the level at price `p` from a side, a no-op when absent.
fn side_remove(side: &mut Vec<OrderBookLevel>, p: u64, desc: bool)
    requires
        side_wf(old(side)@, desc),
    ensures
        final(side)@ == spec_remove(old(side)@, p),
        side_wf(final(side)@, desc),
{
    let ghost s0 = side@;
    let mut i: usize = 0;
    while i < side.len() && price_comes_before(side[i].price.0, p, desc)
        invariant
            i <= side@.len(),
            side@ == s0,
            side_wf(s0, desc),
            forall|k: int| 0 <= k < i ==> comes_before((#[trigger] s0[k]).price.0, p, desc),
        decreases side@.len() - i,
    {
        i += 1;
    }
    proof {
        lemma_remove_at(s0, p, desc, i as int);
        lemma_remove_wf(s0, p, desc);
    }
    if i < side.len() && side[i].price.0 == p {
        let _removed = side.remove(i);
        proof {
            assert(side@ =~= s0.take(i as int) + s0.skip(i as int + 1));
        }
    }
}

/// Applies a parsed change list to one side, left to right.
fn apply_side_changes(side: &mut Vec<OrderBookLevel>, changes: &Vec<(u64, u64)>, ts: u64, desc: bool)
    requires
        side_wf(old(side)@, desc),
        changes_in_range(changes@),
    ensures
        final(side)@ == spec_apply_changes(old(side)@, changes@, ts, desc),
        side_wf(final(side)@, desc),
{
    let ghost s0 = side@;
    let mut i: usize = 0;
    while i < changes.len()
        invariant
            i <= changes@.len(),
            changes_in_range(changes@),
            side@ == spec_apply_changes(s0, changes@.take(i as int), ts, desc),
            side_wf(side@, desc),
        decreases changes@.len() - i,
    {
        let c = changes[i];
        proof {
            lemma_apply_changes_push(s0, changes@.take(i as int), changes@[i as int], ts, desc);
            assert(changes@.take(i as int + 1) =~= changes@.take(i as int).push(
                changes@[i as int],
            ));
        }
        if c.1 == 0 {
            side_remove(side, c.0, desc);
        } else {
            let level = OrderBookLevel { price: Price(c.0), quantity: c.1, timestamp: ts };
            side_upsert(side, level, desc);
        }
        i += 1;
    }
    proof {
        assert(changes@.take(changes@.len() as int) =~= changes@);
    }
}

/// One diff from the stream: per-side lists of (price, quantity) tokens and
/// the id range it covers. Consumed once, never retained.
pub struct OrderBookUpdate {
    pub symbol: String,
    pub first_update_id: u64,
    pub final_update_id: u64,
    pub bids: Vec<(String, String)>,
    pub asks: Vec<(String, String)>,
}

/// A point-in-time rendering of both sides with a sequence watermark.
pub struct OrderBookSnapshot {
    pub last_update_id: u64,
    pub bids: Vec<(String, String)>,
    pub asks: Vec<(String, String)>,
}

/// Every token in the list is a valid in-range decimal numeral.
pub open spec fn changes_valid(cs: Seq<(String, String)>) -> bool {
    forall|i: int|
        0 <= i < cs.len() ==> valid_number((#[trigger] cs[i]).0@) && valid_number(cs[i].1@)
}

/// The change list with its tokens read as fixed-point units.
pub open spec fn parsed_changes(cs: Seq<(String, String)>) -> Seq<(u64, u64)> {
    Seq::new(cs.len(), |i: int| (number_units(cs[i].0@) as u64, number_units(cs[i].1@) as u64))
}

/// The changes that carry a positive quantity, in order.
pub open spec fn nonzero_changes(cs: Seq<(u64, u64)>) -> Seq<(u64, u64)> {
    cs.filter(|c: (u64, u64)| c.1 != 0)
}

proof fn lemma_nonzero_changes_in_range(cs: Seq<(u64, u64)>)
    requires
        changes_in_range(cs),
    ensures
        changes_in_range(nonzero_changes(cs)),
    decreases cs.len(),
{
    reveal(Seq::filter);
    if cs.len() > 0 {
        assert forall|i: int| 0 <= i < cs.drop_last().len() implies (#[trigger] cs.drop_last()[
            i]).0 <= MAX_UNITS && cs.drop_last()[i].1 <= MAX_UNITS by {
            assert(cs.drop_last()[i] == cs[i]);
        }
        lemma_nonzero_changes_in_range(cs.drop_last());
        let f = nonzero_changes(cs);
        let g = nonzero_changes(cs.drop_last());
        assert forall|i: int| 0 <= i < f.len() implies (#[trigger] f[i]).0 <= MAX_UNITS && f[i].1
            <= MAX_UNITS by {
            if cs.last().1 != 0 {
                assert(f == g.push(cs.last()));
                if i < g.len() {
                    assert(f[i] == g[i]);
                }
            } else {
                assert(f == g);
            }
        }
    }
}

/// Parses every token of a change list, rejecting the whole list on the
/// first malformed token.
fn parse_change_list(changes: &Vec<(String, String)>) -> (r: Result<Vec<(u64, u64)>, ParseError>)
    ensures
        r is Ok <==> changes_valid(changes@),
        r matches Ok(v) ==> v@ == parsed_changes(changes@) && changes_in_range(v@),
{
    let mut out: Vec<(u64, u64)> = Vec::new();
    let mut i: usize = 0;
    while i < changes.len()
        invariant
            i <= changes@.len(),
            out@.len() == i,
            forall|k: int|
                0 <= k < i ==> valid_number((#[trigger] changes@[k]).0@) && valid_number(
                    changes@[k].1@),
            forall|k: int|
                0 <= k < i ==> (#[trigger] out@[k]) == ((
                    number_units(changes@[k].0@) as u64,
                    number_units(changes@[k].1@) as u64,
                )) && out@[k].0 <= MAX_UNITS && out@[k].1 <= MAX_UNITS,
        decreases changes@.len() - i,
    {
        let p = match parse_units(changes[i].0.as_str()) {
            Ok(p) => p,
            Err(e) => {
                proof {
                    assert(!valid_number(changes@[i as int].0@));
                }
                return Err(e);
            },
        };
        let q = match parse_units(changes[i].1.as_str()) {
            Ok(q) => q,
            Err(e) => {
                proof {
                    assert(!valid_number(changes@[i as int].1@));
                }
                return Err(e);
            },
        };
        out.push((p, q));
        i += 1;
    }
    proof {
        assert(out@ =~= parsed_changes(changes@));
    }
    Ok(out)
}

/// The live order book: both sides, best level first, and the watermark of
/// the last update merged in.
pub struct OrderBook {
    /// Buy side, price descending: the best (highest) bid first.
    pub bids: Vec<OrderBookLevel>,
    /// Sell side, price ascending: the best (lowest) ask first.
    pub asks: Vec<OrderBookLevel>,
    /// Monotonic watermark: the final id of the last diff merged in.
    pub last_update: u64,
    pub symbol: String,
}

impl OrderBook {
    /// Both sides strictly sorted with positive in-range quantities.
    pub open spec fn wf(self) -> bool {
        side_wf(self.bids@, true) && side_wf(self.asks@, false)
    }

    /// Valid for pricing: both sides non-empty and strictly positive spread.
    pub open spec fn spec_valid(self) -> bool {
        self.bids@.len() > 0 && self.asks@.len() > 0 && self.asks@[0].price.0
            > self.bids@[0].price.0
    }

    pub fn new(symbol: String) -> (r: OrderBook)
        ensures
            r.wf(),
            r.bids@.len() == 0,
            r.asks@.len() == 0,
            r.last_update == 0,
            r.symbol == symbol,
    {
        OrderBook { bids: Vec::new(), asks: Vec::new(), last_update: 0, symbol }
    }

    /// The highest-priced resting bid, if any.
    pub fn best_bid(&self) -> (r: Option<&OrderBookLevel>)
        ensures
            r is Some <==> self.bids@.len() > 0,
            r matches Some(l) ==> *l == self.bids@[0],
    {
        if self.bids.len() > 0 {
            Some(&self.bids[0])
        } else {
            None
        }
    }

    /// The lowest-priced resting ask, if any.
    pub fn best_ask(&self) -> (r: Option<&OrderBookLevel>)
        ensures
            r is Some <==> self.asks@.len() > 0,
            r matches Some(l) ==> *l == self.asks@[0],
    {
        if self.asks.len() > 0 {
            Some(&self.asks[0])
        } else {
            None
        }
    }

    /// Best ask price minus best bid price; negative when the book is
    /// crossed, absent when either side is empty.
    pub fn spread(&self) -> (r: Option<i64>)
        requires
            self.wf(),
        ensures
            r is Some <==> self.bids@.len() > 0 && self.asks@.len() > 0,
            r matches Some(v) ==> v == self.asks@[0].price.0 - self.bids@[0].price.0,
    {
        if self.bids.len() > 0 && self.asks.len() > 0 {
            Some((self.asks[0].price.0 as i64) - (self.bids[0].price.0 as i64))
        } else {
            None
        }
    }

    /// Arithmetic mean of the best bid and ask prices, rounded down.
    pub fn mid_price(&self) -> (r: Option<u64>)
        requires
            self.wf(),
        ensures
            r is Some <==> self.bids@.len() > 0 && self.asks@.len() > 0,
            r matches Some(v) ==> v == (self.bids@[0].price.0 + self.asks@[0].price.0) / 2,
    {
        if self.bids.len() > 0 && self.asks.len() > 0 {
            Some((((self.bids[0].price.0 as u128) + (self.asks[0].price.0 as u128)) / 2) as u64)
        } else {
            None
        }
    }

    /// Up to `n` best levels per side, best first.
    pub fn get_top_levels(&self, n: usize) -> (r: (Vec<OrderBookLevel>, Vec<OrderBookLevel>))
        ensures
            r.0@ == self.bids@.take(if n <= self.bids@.len() { n as int } else { self.bids@.len() as int }),
            r.1@ == self.asks@.take(if n <= self.asks@.len() { n as int } else { self.asks@.len() as int }),
    {
        (take_prefix(&self.bids, n), take_prefix(&self.asks, n))
    }

    /// Both sides non-empty and the spread strictly positive; a locked or
    /// crossed book does not count as valid.
    pub fn is_valid(&self) -> (r: bool)
        requires
            self.wf(),
        ensures
            r == self.spec_valid(),
    {
        self.bids.len() > 0 && self.asks.len() > 0 && self.asks[0].price.0 > self.bids[0].price.0
    }

    /// Merges one diff. A diff whose final id does not extend the watermark
    /// is discarded whole; a malformed token rejects the diff and leaves the
    /// book untouched; otherwise every change is applied in order, levels
    /// stamped `now`, and the watermark advances to the diff's final id.
    pub fn apply_update(&mut self, update: &OrderBookUpdate, now: u64) -> (r: Result<
        (),
        ParseError,
    >)
        requires
            old(self).wf(),
        ensures
            final(self).wf(),
            update.final_update_id <= old(self).last_update ==> r is Ok && *final(self) == *old(
                self,
            ),
            r is Err ==> *final(self) == *old(self),
            update.final_update_id > old(self).last_update ==> (r is Ok <==> changes_valid(
                update.bids@,
            ) && changes_valid(update.asks@)),
            update.final_update_id > old(self).last_update && r is Ok ==> final(self).bids@
                == spec_apply_changes(old(self).bids@, parsed_changes(update.bids@), now, true)
                && final(self).asks@ == spec_apply_changes(
                old(self).asks@,
                parsed_changes(update.asks@),
                now,
                false,
            ) && final(self).last_update == update.final_update_id && final(self).symbol == old(
                self,
            ).symbol,
    {
        if update.final_update_id <= self.last_update {
            return Ok(());
        }
        let parsed_bids = match parse_change_list(&update.bids) {
            Ok(v) => v,
            Err(e) => {
                return Err(e);
            },
        };
        let parsed_asks = match parse_change_list(&update.asks) {
            Ok(v) => v,
            Err(e) => {
                return Err(e);
            },
        };
        apply_side_changes(&mut self.bids, &parsed_bids, now, true);
        apply_side_changes(&mut self.asks, &parsed_asks, now, false);
        self.last_update = update.final_update_id;
        Ok(())
    }

    /// Trims each side to its `max_depth` best-priced levels, discarding the
    /// worst-priced entries first.
    pub fn trim_to_depth(&mut self, max_depth: usize)
        requires
            old(self).wf(),
        ensures
            final(self).wf(),
            final(self).bids@ == old(self).bids@.take(
                if max_depth <= old(self).bids@.len() {
                    max_depth as int
                } else {
                    old(self).bids@.len() as int
                },
            ),
            final(self).asks@ == old(self).asks@.take(
                if max_depth <= old(self).asks@.len() {
                    max_depth as int
                } else {
                    old(self).asks@.len() as int
                },
            ),
            final(self).bids@.len() <= max_depth,
            final(self).asks@.len() <= max_depth,
            final(self).last_update == old(self).last_update,
            final(self).symbol == old(self).symbol,
    {
        let ghost b0 = self.bids@;
        let ghost a0 = self.asks@;
        if self.bids.len() > max_depth {
            self.bids.truncate(max_depth);
            proof {
                assert(self.bids@ =~= b0.take(max_depth as int));
            }
        } else {
            proof {
                assert(self.bids@ =~= b0.take(b0.len() as int));
            }
        }
        if self.asks.len() > max_depth {
            self.asks.truncate(max_depth);
            proof {
                assert(self.asks@ =~= a0.take(max_depth as int));
            }
        } else {
            proof {
                assert(self.asks@ =~= a0.take(a0.len() as int));
            }
        }
        proof {
            lemma_take_side_wf(b0, true, self.bids@.len() as int);
            lemma_take_side_wf(a0, false, self.asks@.len() as int);
        }
    }
}

/// Law: a trim keeps the best-priced levels: every level a prefix keeps
/// comes before, in side order, every level it discards.
pub proof fn lemma_prefix_keeps_best(s: Seq<OrderBookLevel>, desc: bool, k: int)
    requires
        side_wf(s, desc),
        0 <= k <= s.len(),
    ensures
        forall|i: int, j: int|
            #![trigger s[i], s[j]]
            0 <= i < k && k <= j < s.len() ==> comes_before(s[i].price.0, s[j].price.0, desc),
{
}

/// A prefix of a well-formed side is well formed.
pub proof fn lemma_take_side_wf(s: Seq<OrderBookLevel>, desc: bool, n: int)
    requires
        side_wf(s, desc),
        0 <= n <= s.len(),
    ensures
        side_wf(s.take(n), desc),
{
    assert forall|i: int, j: int|
        0 <= i < j < s.take(n).len() implies comes_before(
        (#[trigger] s.take(n)[i]).price.0,
        (#[trigger] s.take(n)[j]).price.0,
        desc,
    ) by {
        assert(s.take(n)[i] == s[i]);
        assert(s.take(n)[j] == s[j]);
    }
    assert forall|i: int| 0 <= i < s.take(n).len() implies 0 < (#[trigger] s.take(n)[i]).quantity
        <= MAX_UNITS && s.take(n)[i].price.0 <= MAX_UNITS by {
        assert(s.take(n)[i] == s[i]);
    }
}

/// Copies up to `n` leading levels of a side.
fn take_prefix(v: &Vec<OrderBookLevel>, n: usize) -> (r: Vec<OrderBookLevel>)
    ensures
        r@ == v@.take(if n <= v@.len() { n as int } else { v@.len() as int }),
{
    let mut out: Vec<OrderBookLevel> = Vec::new();
    let count = if n <= v.len() {
        n
    } else {
        v.len()
    };
    let mut i: usize = 0;
    while i < count
        invariant
            i <= count <= v@.len(),
            out@ == v@.take(i as int),
        decreases count - i,
    {
        out.push(v[i]);
        proof {
            assert(out@ =~= v@.take(i as int + 1));
        }
        i += 1;
    }
    out
}

/// Builds a fresh book from a snapshot: entries with positive quantity are
/// inserted, stamped `now`; non-positive entries are skipped; the watermark
/// is the snapshot's id. A malformed token rejects the whole snapshot.
pub fn book_from_snapshot(symbol: &str, snapshot: &OrderBookSnapshot, now: u64) -> (r: Result<
    OrderBook,
    ParseError,
>)
    ensures
        r is Ok <==> changes_valid(snapshot.bids@) && changes_valid(snapshot.asks@),
        r matches Ok(b) ==> b.wf() && b.bids@ == spec_apply_changes(
            Seq::empty(),
            nonzero_changes(parsed_changes(snapshot.bids@)),
            now,
            true,
        ) && b.asks@ == spec_apply_changes(
            Seq::empty(),
            nonzero_changes(parsed_changes(snapshot.asks@)),
            now,
            false,
        ) && b.last_update == snapshot.last_update_id && b.symbol@ == symbol@,
{
    let parsed_bids = match parse_change_list(&snapshot.bids) {
        Ok(v) => v,
        Err(e) => {
            return Err(e);
        },
    };
    let parsed_asks = match parse_change_list(&snapshot.asks) {
        Ok(v) => v,
        Err(e) => {
            return Err(e);
        },
    };
    let pos_bids = keep_nonzero(&parsed_bids);
    let pos_asks = keep_nonzero(&parsed_asks);
    proof {
        lemma_nonzero_changes_in_range(parsed_bids@);
        lemma_nonzero_changes_in_range(parsed_asks@);
    }
    let mut book = OrderBook::new(symbol.to_owned());
    apply_side_changes(&mut book.bids, &pos_bids, now, true);
    apply_side_changes(&mut book.asks, &pos_asks, now, false);
    book.last_update = snapshot.last_update_id;
    Ok(book)
}

/// Keeps the changes with a positive quantity, in order.
fn keep_nonzero(cs: &Vec<(u64, u64)>) -> (r: Vec<(u64, u64)>)
    ensures
        r@ == nonzero_changes(cs@),
{
    proof {
        reveal(Seq::filter);
    }
    let mut out: Vec<(u64, u64)> = Vec::new();
    let mut i: usize = 0;
    while i < cs.len()
        invariant
            i <= cs@.len(),
            out@ == nonzero_changes(cs@.take(i as int)),
        decreases cs@.len() - i,
    {
        proof {
            reveal(Seq::filter);
            let t = cs@.take(i as int + 1);
            assert(t.drop_last() =~= cs@.take(i as int));
            assert(t.last() == cs@[i as int]);
        }
        let c = cs[i];
        if c.1 != 0 {
            out.push(c);
        }
        i += 1;
    }
    proof {
        assert(cs@.take(cs@.len() as int) =~= cs@);
    }
    out
}

/// Errors the store reports: a diff before initialization, or a malformed
/// token inside a snapshot or diff.
#[derive(Debug, Clone, Copy, PartialEq, Eq, Structural)]
pub enum OrderBookError {
    NotInitialized,
    Parse(ParseError),
}

/// What the store's lock guarantees of every book it ever holds: well
/// formed and trimmed to the configured depth.
pub struct BookPred {
    pub max_depth: nat,
}

impl RwLockPredicate<Option<OrderBook>> for BookPred {
    open spec fn inv(self, v: Option<OrderBook>) -> bool {
        match v {
            None => true,
            Some(b) => b.wf() && b.bids@.len() <= self.max_depth && b.asks@.len()
                <= self.max_depth,
        }
    }
}

/// Concurrency-safe holder of one optional book: readers copy out a
/// consistent snapshot, the single writer replaces or mutates it atomically,
/// and every stored book is trimmed to at most `max_depth` levels per side.
pub struct OrderBookManager {
    order_book: RwLock<Option<OrderBook>, BookPred>,
    max_depth: usize,
}

impl OrderBookManager {
    /// The lock's invariant is tied to this manager's configured depth.
    pub closed spec fn wf(self) -> bool {
        self.order_book.pred() == (BookPred { max_depth: self.max_depth as nat })
            && self.max_depth <= DEPTH_LIMIT
    }

    pub closed spec fn spec_max_depth(self) -> int {
        self.max_depth as int
    }

    pub fn new() -> (r: OrderBookManager)
        ensures
            r.wf(),
            r.spec_max_depth() == 100,
    {
        OrderBookManager {
            order_book: RwLock::new(None, Ghost(BookPred { max_depth: 100 })),
            max_depth: 100,
        }
    }

    pub fn with_max_depth(max_depth: usize) -> (r: OrderBookManager)
        requires
            max_depth <= DEPTH_LIMIT,
        ensures
            r.wf(),
            r.spec_max_depth() == max_depth,
    {
        OrderBookManager {
            order_book: RwLock::new(None, Ghost(BookPred { max_depth: max_depth as nat })),
            max_depth,
        }
    }

    /// Builds a fresh book from the snapshot, trims it, and atomically
    /// replaces any prior state. Rejected whole on a malformed token.
    pub fn initialize_from_snapshot(&self, symbol: &str, snapshot: &OrderBookSnapshot) -> (r:
        Result<(), ParseError>)
        requires
            self.wf(),
        ensures
            r is Ok <==> changes_valid(snapshot.bids@) && changes_valid(snapshot.asks@),
    {
        let now = crate::now_micros();
        match book_from_snapshot(symbol, snapshot, now) {
            Err(e) => Err(e),
            Ok(mut book) => {
                book.trim_to_depth(self.max_depth);
                let (_old, handle) = self.order_book.acquire_write();
                handle.release_write(Some(book));
                Ok(())
            },
        }
    }

    /// Applies one diff under exclusive access, then trims to depth.
    /// `NotInitialized` before any snapshot; a malformed token rejects the
    /// diff and leaves the held book unchanged. Readers never observe a
    /// partially applied diff.
    pub fn apply_update(&self, update: &OrderBookUpdate) -> (r: Result<(), OrderBookError>)
        requires
            self.wf(),
        ensures
            r matches Err(OrderBookError::Parse(_)) ==> !(changes_valid(update.bids@)
                && changes_valid(update.asks@)),
    {
        let now = crate::now_micros();
        let (val, handle) = self.order_book.acquire_write();
        match val {
            None => {
                handle.release_write(None);
                Err(OrderBookError::NotInitialized)
            },
            Some(mut book) => {
                match book.apply_update(update, now) {
                    Ok(_u) => {
                        book.trim_to_depth(self.max_depth);
                        handle.release_write(Some(book));
                        Ok(())
                    },
                    Err(e) => {
                        handle.release_write(Some(book));
                        Err(OrderBookError::Parse(e))
                    },
                }
            },
        }
    }

    /// A deep copy of the current book, or `None` before initialization.
    /// Whatever the store's history, the copy is well formed and holds at
    /// most `max_depth` levels per side.
    pub fn get_order_book(&self) -> (r: Option<OrderBook>)
        requires
            self.wf(),
        ensures
            r matches Some(b) ==> b.wf() && b.bids@.len() <= self.spec_max_depth()
                && b.asks@.len() <= self.spec_max_depth(),
    {
        let handle = self.order_book.acquire_read();
        let r = match handle.borrow() {
            None => None,
            Some(book) => Some(clone_book(book)),
        };
        handle.release_read();
        r
    }

    /// The mid price of the held book, absent before initialization or when
    /// either side is empty. Whatever book is held, the value stays in the
    /// fixed-point range.
    pub fn get_mid_price(&self) -> (r: Option<u64>)
        requires
            self.wf(),
        ensures
            r matches Some(v) ==> v <= MAX_UNITS,
    {
        let handle = self.order_book.acquire_read();
        let r = match handle.borrow() {
            None => None,
            Some(book) => {
                let m = book.mid_price();
                proof {
                    if book.bids@.len() > 0 && book.asks@.len() > 0 {
                        assert(book.bids@[0].price.0 <= MAX_UNITS);
                        assert(book.asks@[0].price.0 <= MAX_UNITS);
                    }
                }
                m
            },
        };
        handle.release_read();
        r
    }

    /// The spread of the held book, absent before initialization or when
    /// either side is empty. Whatever book is held, the value stays in the
    /// fixed-point range.
    pub fn get_spread(&self) -> (r: Option<i64>)
        requires
            self.wf(),
        ensures
            r matches Some(v) ==> -(MAX_UNITS as i64) <= v <= MAX_UNITS as i64,
    {
        let handle = self.order_book.acquire_read();
        let r = match handle.borrow() {
            None => None,
            Some(book) => {
                let s = book.spread();
                proof {
                    if book.bids@.len() > 0 && book.asks@.len() > 0 {
                        assert(book.bids@[0].price.0 <= MAX_UNITS);
                        assert(book.asks@[0].price.0 <= MAX_UNITS);
                    }
                }
                s
            },
        };
        handle.release_read();
        r
    }

    /// Whether a book is present and valid for pricing.
    pub fn is_ready(&self) -> (r: bool)
        requires
            self.wf(),
    {
        let handle = self.order_book.acquire_read();
        let r = match handle.borrow() {
            None => false,
            Some(book) => book.is_valid(),
        };
        handle.release_read();
        r
    }
}

impl Default for OrderBookManager {
    /// A store with the default depth of one hundred.
    fn default() -> (r: OrderBookManager)
        ensures
            r.wf(),
            r.spec_max_depth() == 100,
    {
        OrderBookManager::new()
    }
}

/// Copies a book field by field, so a reader holds no reference into the
/// live structure.
fn clone_book(b: &OrderBook) -> (r: OrderBook)
    ensures
        r.bids@ == b.bids@,
        r.asks@ == b.asks@,
        r.last_update == b.last_update,
        r.symbol@ == b.symbol@,
{
    let bids = take_prefix(&b.bids, b.bids.len());
    let asks = take_prefix(&b.asks, b.asks.len());
    proof {
        assert(b.bids@.take(b.bids@.len() as int) =~= b.bids@);
        assert(b.asks@.take(b.asks@.len() as int) =~= b.asks@);
    }
    OrderBook { bids, asks, last_update: b.last_update, symbol: b.symbol.clone() }
}

} // verus!
