use vstd::prelude::*;
use crate::components::{
    all_positive, fills_view, keeps_view, needs_view, stock_view, Fills, Keeps, Needs, Stockpile,
};
use crate::quantity::{banked, fill_after, ration, stock_after, Fraction};

verus! {

/// The shared simulation flag: systems act only while it is `Run`.
#[derive(Clone, Copy, Debug, PartialEq, Eq, Structural)]
pub enum SimStatus {
    Wait,
    Run,
}

impl Default for SimStatus {
    fn default() -> (r: SimStatus)
        ensures
            r == SimStatus::Wait,
    {
        SimStatus::Wait
    }
}

/// Every banked quantity halved (rounding down to whole units).
pub open spec fn halved(k: Seq<u64>) -> Seq<u64> {
    Seq::new(k.len(), |g: int| k[g] / 2)
}

/// The keeps table after one decay pass.
pub open spec fn decayed(t: Seq<Option<Seq<u64>>>) -> Seq<Option<Seq<u64>>> {
    Seq::new(t.len(), |i: int| match t[i] {
        Some(k) => Some(halved(k)),
        None => None,
    })
}

/// Stock vector after one consumption step over the goods of `n`.
pub open spec fn consumed_stock(s: Seq<u64>, n: Seq<u64>) -> Seq<u64> {
    Seq::new(n.len(), |g: int| stock_after(s[g], n[g]))
}

/// Keeps vector after one consumption step over the goods of `n`.
pub open spec fn consumed_keeps(k: Seq<u64>, s: Seq<u64>, n: Seq<u64>) -> Seq<u64> {
    Seq::new(n.len(), |g: int| (k[g] + banked(s[g], n[g])) as u64)
}

/// Fills vector computed afresh by one consumption step.
pub open spec fn consumed_fills(s: Seq<u64>, n: Seq<u64>) -> Seq<Fraction> {
    Seq::new(n.len(), |g: int| fill_after(s[g], n[g]))
}

/// Whether agent `i` has all four components that consumption works on.
pub open spec fn consumes(
    st: Seq<Option<Seq<u64>>>,
    ft: Seq<Option<Seq<Fraction>>>,
    kt: Seq<Option<Seq<u64>>>,
    nt: Seq<Option<Seq<u64>>>,
    i: int,
) -> bool {
    st[i].is_some() && ft[i].is_some() && kt[i].is_some() && nt[i].is_some()
}

/// What consumption may assume of its tables: one slot per agent in each,
/// and, for an agent with all four components, one entry per good in each
/// vector and room in a `u64` for banking the whole stock.
pub open spec fn consumption_ready(
    st: Seq<Option<Seq<u64>>>,
    ft: Seq<Option<Seq<Fraction>>>,
    kt: Seq<Option<Seq<u64>>>,
    nt: Seq<Option<Seq<u64>>>,
) -> bool {
    &&& ft.len() == st.len()
    &&& kt.len() == st.len()
    &&& nt.len() == st.len()
    &&& forall|i: int|
        0 <= i < st.len() && #[trigger] consumes(st, ft, kt, nt, i) ==> {
            &&& st[i].unwrap().len() == nt[i].unwrap().len()
            &&& kt[i].unwrap().len() == nt[i].unwrap().len()
            &&& forall|g: int|
                0 <= g < nt[i].unwrap().len() ==> kt[i].unwrap()[g] + st[i].unwrap()[g]
                    <= u64::MAX
        }
}

/// Halves one agent's banked quantities.
fn halve_all(k: &Vec<u64>) -> (r: Vec<u64>)
    ensures
        r@ == halved(k@),
{
    let mut out: Vec<u64> = Vec::new();
    let mut g: usize = 0;
    while g < k.len()
        invariant
            g <= k@.len(),
            out@.len() == g,
            forall|h: int| 0 <= h < g ==> out@[h] == k@[h] / 2,
        decreases k@.len() - g,
    {
        out.push(k[g] / 2);
        g = g + 1;
    }
    assert(out@ =~= halved(k@));
    out
}

/// The decay system: while the flag is `Run`, halves every banked
/// quantity of every agent that has a keeps component; otherwise does
/// nothing.
pub fn decay_run(keeps: &mut Vec<Option<Keeps>>, status: SimStatus)
    ensures
        status == SimStatus::Wait ==> final(keeps)@ == old(keeps)@,
        status == SimStatus::Run ==> keeps_view(final(keeps)@) == decayed(keeps_view(old(keeps)@)),
        final(keeps)@.len() == old(keeps)@.len(),
{
    if status == SimStatus::Wait {
        return;
    }
    let ghost before = keeps_view(keeps@);
    let mut i: usize = 0;
    while i < keeps.len()
        invariant
            before == keeps_view(old(keeps)@),
            i <= keeps@.len(),
            keeps@.len() == old(keeps)@.len(),
            forall|j: int| 0 <= j < i ==> #[trigger] keeps_view(keeps@)[j] == decayed(before)[j],
            forall|j: int| i <= j < keeps@.len() ==> #[trigger] keeps@[j] == old(keeps)@[j],
        decreases keeps@.len() - i,
    {
        let next: Option<Keeps> = match &keeps[i] {
            Some(k) => Some(Keeps { keeps: halve_all(&k.keeps) }),
            None => None,
        };
        let ghost prev = keeps@;
        keeps.set(i, next);
        proof {
            assert(keeps_view(keeps@)[i as int] == decayed(before)[i as int]);
            assert forall|j: int| 0 <= j < i implies #[trigger] keeps_view(keeps@)[j]
                == decayed(before)[j] by {
                assert(keeps@[j] == prev[j]);
                assert(keeps_view(prev)[j] == decayed(before)[j]);
            }
        }
        i = i + 1;
    }
    assert(keeps_view(keeps@) =~= decayed(before));
}

/// The stockpile table after one consumption pass.
pub open spec fn consumed_stock_table(
    st: Seq<Option<Seq<u64>>>,
    ft: Seq<Option<Seq<Fraction>>>,
    kt: Seq<Option<Seq<u64>>>,
    nt: Seq<Option<Seq<u64>>>,
) -> Seq<Option<Seq<u64>>> {
    Seq::new(st.len(), |i: int|
        if consumes(st, ft, kt, nt, i) {
            Some(consumed_stock(st[i].unwrap(), nt[i].unwrap()))
        } else {
            st[i]
        })
}

/// The keeps table after one consumption pass.
pub open spec fn consumed_keeps_table(
    st: Seq<Option<Seq<u64>>>,
    ft: Seq<Option<Seq<Fraction>>>,
    kt: Seq<Option<Seq<u64>>>,
    nt: Seq<Option<Seq<u64>>>,
) -> Seq<Option<Seq<u64>>> {
    Seq::new(kt.len(), |i: int|
        if consumes(st, ft, kt, nt, i) {
            Some(consumed_keeps(kt[i].unwrap(), st[i].unwrap(), nt[i].unwrap()))
        } else {
            kt[i]
        })
}

/// The fills table after one consumption pass.
pub open spec fn consumed_fills_table(
    st: Seq<Option<Seq<u64>>>,
    ft: Seq<Option<Seq<Fraction>>>,
    kt: Seq<Option<Seq<u64>>>,
    nt: Seq<Option<Seq<u64>>>,
) -> Seq<Option<Seq<Fraction>>> {
    Seq::new(ft.len(), |i: int|
        if consumes(st, ft, kt, nt, i) {
            Some(consumed_fills(st[i].unwrap(), nt[i].unwrap()))
        } else {
            ft[i]
        })
}

/// Consumption for one agent: the new stock, keeps and fills vectors.
fn consume_agent(s: &Vec<u64>, k: &Vec<u64>, n: &Needs) -> (r: (Vec<u64>, Vec<u64>, Vec<Fraction>))
    requires
        s@.len() == n@.len(),
        k@.len() == n@.len(),
        forall|g: int| 0 <= g < n@.len() ==> k@[g] + s@[g] <= u64::MAX,
    ensures
        r.0@ == consumed_stock(s@, n@),
        r.1@ == consumed_keeps(k@, s@, n@),
        r.2@ == consumed_fills(s@, n@),
{
    let mut stock: Vec<u64> = Vec::new();
    let mut kept: Vec<u64> = Vec::new();
    let mut fill: Vec<Fraction> = Vec::new();
    let mut g: usize = 0;
    while g < n.len()
        invariant
            g <= n@.len(),
            s@.len() == n@.len(),
            k@.len() == n@.len(),
            forall|h: int| 0 <= h < n@.len() ==> k@[h] + s@[h] <= u64::MAX,
            stock@.len() == g,
            kept@.len() == g,
            fill@.len() == g,
            forall|h: int| 0 <= h < g ==> stock@[h] == stock_after(s@[h], n@[h]),
            forall|h: int| 0 <= h < g ==> kept@[h] == k@[h] + banked(s@[h], n@[h]),
            forall|h: int| 0 <= h < g ==> fill@[h] == fill_after(s@[h], n@[h]),
        decreases n@.len() - g,
    {
        let (left, add, frac) = ration(s[g], n.get(g));
        stock.push(left);
        kept.push(k[g] + add);
        fill.push(frac);
        g = g + 1;
    }
    assert(stock@ =~= consumed_stock(s@, n@));
    assert(kept@ =~= consumed_keeps(k@, s@, n@));
    assert(fill@ =~= consumed_fills(s@, n@));
    (stock, kept, fill)
}

/// The consumption system: while the flag is `Run`, applies the rationing
/// rule to every good of every agent that has a stockpile, fills, keeps and
/// needs; fills are recomputed from scratch. Otherwise does nothing.
pub fn consumption_run(
    stockpiles: &mut Vec<Option<Stockpile>>,
    fills: &mut Vec<Option<Fills>>,
    keeps: &mut Vec<Option<Keeps>>,
    needs: &Vec<Option<Needs>>,
    status: SimStatus,
)
    requires
        consumption_ready(
            stock_view(old(stockpiles)@),
            fills_view(old(fills)@),
            keeps_view(old(keeps)@),
            needs_view(needs@),
        ),
    ensures
        status == SimStatus::Wait ==> {
            &&& final(stockpiles)@ == old(stockpiles)@
            &&& final(fills)@ == old(fills)@
            &&& final(keeps)@ == old(keeps)@
        },
        status == SimStatus::Run ==> {
            &&& stock_view(final(stockpiles)@) == consumed_stock_table(
                stock_view(old(stockpiles)@),
                fills_view(old(fills)@),
                keeps_view(old(keeps)@),
                needs_view(needs@),
            )
            &&& fills_view(final(fills)@) == consumed_fills_table(
                stock_view(old(stockpiles)@),
                fills_view(old(fills)@),
                keeps_view(old(keeps)@),
                needs_view(needs@),
            )
            &&& keeps_view(final(keeps)@) == consumed_keeps_table(
                stock_view(old(stockpiles)@),
                fills_view(old(fills)@),
                keeps_view(old(keeps)@),
                needs_view(needs@),
            )
        },
        final(stockpiles)@.len() == old(stockpiles)@.len(),
        final(fills)@.len() == old(fills)@.len(),
        final(keeps)@.len() == old(keeps)@.len(),
{
    if status == SimStatus::Wait {
        return;
    }
    let ghost st0 = stock_view(stockpiles@);
    let ghost ft0 = fills_view(fills@);
    let ghost kt0 = keeps_view(keeps@);
    let ghost nt = needs_view(needs@);
    let mut i: usize = 0;
    while i < stockpiles.len()
        invariant
            st0 == stock_view(old(stockpiles)@),
            ft0 == fills_view(old(fills)@),
            kt0 == keeps_view(old(keeps)@),
            nt == needs_view(needs@),
            consumption_ready(st0, ft0, kt0, nt),
            i <= stockpiles@.len(),
            stockpiles@.len() == old(stockpiles)@.len(),
            fills@.len() == old(fills)@.len(),
            keeps@.len() == old(keeps)@.len(),
            forall|j: int| 0 <= j < i ==> #[trigger] stock_view(stockpiles@)[j]
                == consumed_stock_table(st0, ft0, kt0, nt)[j],
            forall|j: int| 0 <= j < i ==> #[trigger] fills_view(fills@)[j]
                == consumed_fills_table(st0, ft0, kt0, nt)[j],
            forall|j: int| 0 <= j < i ==> #[trigger] keeps_view(keeps@)[j]
                == consumed_keeps_table(st0, ft0, kt0, nt)[j],
            forall|j: int| i <= j < stockpiles@.len() ==> #[trigger] stockpiles@[j]
                == old(stockpiles)@[j],
            forall|j: int| i <= j < fills@.len() ==> #[trigger] fills@[j] == old(fills)@[j],
            forall|j: int| i <= j < keeps@.len() ==> #[trigger] keeps@[j] == old(keeps)@[j],
        decreases stockpiles@.len() - i,
    {
        let ghost sp = stockpiles@;
        let ghost fp = fills@;
        let ghost kp = keeps@;
        proof {
            assert(consumes(st0, ft0, kt0, nt, i as int) == (stockpiles@[i as int].is_some()
                && fills@[i as int].is_some() && keeps@[i as int].is_some()
                && needs@[i as int].is_some()));
        }
        if stockpiles[i].is_some() && fills[i].is_some() && keeps[i].is_some()
            && needs[i].is_some() {
            let (ns, nk, nf) = consume_agent(
                &stockpiles[i].as_ref().unwrap().goods,
                &keeps[i].as_ref().unwrap().keeps,
                needs[i].as_ref().unwrap(),
            );
            stockpiles.set(i, Some(Stockpile { goods: ns }));
            keeps.set(i, Some(Keeps { keeps: nk }));
            fills.set(i, Some(Fills { fills: nf }));
        }
        proof {
            assert(stock_view(stockpiles@)[i as int] == consumed_stock_table(st0, ft0, kt0, nt)[i as int]);
            assert(fills_view(fills@)[i as int] == consumed_fills_table(st0, ft0, kt0, nt)[i as int]);
            assert(keeps_view(keeps@)[i as int] == consumed_keeps_table(st0, ft0, kt0, nt)[i as int]);
            assert forall|j: int| 0 <= j < i implies #[trigger] stock_view(stockpiles@)[j]
                == consumed_stock_table(st0, ft0, kt0, nt)[j] by {
                assert(stockpiles@[j] == sp[j]);
                assert(stock_view(sp)[j] == consumed_stock_table(st0, ft0, kt0, nt)[j]);
            }
            assert forall|j: int| 0 <= j < i implies #[trigger] fills_view(fills@)[j]
                == consumed_fills_table(st0, ft0, kt0, nt)[j] by {
                assert(fills@[j] == fp[j]);
                assert(fills_view(fp)[j] == consumed_fills_table(st0, ft0, kt0, nt)[j]);
            }
            assert forall|j: int| 0 <= j < i implies #[trigger] keeps_view(keeps@)[j]
                == consumed_keeps_table(st0, ft0, kt0, nt)[j] by {
                assert(keeps@[j] == kp[j]);
                assert(keeps_view(kp)[j] == consumed_keeps_table(st0, ft0, kt0, nt)[j]);
            }
        }
        i = i + 1;
    }
    assert(stock_view(stockpiles@) =~= consumed_stock_table(st0, ft0, kt0, nt));
    assert(fills_view(fills@) =~= consumed_fills_table(st0, ft0, kt0, nt));
    assert(keeps_view(keeps@) =~= consumed_keeps_table(st0, ft0, kt0, nt));
}

/// After a consumption pass, every good of every agent that consumed has a
/// fill in `[0, 1]`, a stock no larger than before (so never below zero)
/// and a banked amount no smaller than before.
pub proof fn lemma_consumption_bounds(
    st: Seq<Option<Seq<u64>>>,
    ft: Seq<Option<Seq<Fraction>>>,
    kt: Seq<Option<Seq<u64>>>,
    nt: Seq<Option<Seq<u64>>>,
    i: int,
    g: int,
)
    requires
        consumption_ready(st, ft, kt, nt),
        0 <= i < st.len(),
        consumes(st, ft, kt, nt, i),
        all_positive(nt[i].unwrap()),
        0 <= g < nt[i].unwrap().len(),
    ensures
        consumed_fills_table(st, ft, kt, nt)[i].unwrap()[g].is_unit(),
        consumed_stock_table(st, ft, kt, nt)[i].unwrap()[g] <= st[i].unwrap()[g],
        consumed_keeps_table(st, ft, kt, nt)[i].unwrap()[g] >= kt[i].unwrap()[g],
{
    assert(nt[i].unwrap()[g] > 0);
}

} // verus!
