use vstd::prelude::*;
use crate::components::{
    all_positive, fills_view, keeps_view, needs_view, stock_view, Fills, Keeps, Needs, SimError,
    Stockpile,
};
use crate::activity::Acts;
use crate::beliefs::Beliefs;
use crate::quantity::{Fraction, MAX_QUANTITY};
use crate::systems::{
    consumed_fills_table, consumed_keeps_table, consumed_stock_table, consumption_ready,
    consumes, consumption_run, decay_run, decayed, SimStatus,
};

verus! {

/// The component store: agents are indices, and each component kind has
/// its own table with one optional slot per agent.
#[derive(Debug)]
pub struct World {
    pub n_goods: usize,
    pub stockpiles: Vec<Option<Stockpile>>,
    pub needs: Vec<Option<Needs>>,
    pub fills: Vec<Option<Fills>>,
    pub keeps: Vec<Option<Keeps>>,
    pub beliefs: Vec<Option<Beliefs>>,
    pub acts: Vec<Option<Acts>>,
}

/// Every present vector of a table has one entry per good.
pub open spec fn sized<T>(t: Seq<Option<Seq<T>>>, n_goods: nat) -> bool {
    forall|i: int| 0 <= i < t.len() && (#[trigger] t[i]).is_some() ==> t[i].unwrap().len() == n_goods
}

/// Every present vector of a table holds values no larger than `bound`.
pub open spec fn bounded(t: Seq<Option<Seq<u64>>>, bound: int) -> bool {
    forall|i: int, g: int|
        0 <= i < t.len() && t[i].is_some() && 0 <= g < t[i].unwrap().len()
            ==> #[trigger] t[i].unwrap()[g] <= bound
}

/// Every present fills vector holds fractions in `[0, 1]`.
pub open spec fn unit_fills(t: Seq<Option<Seq<Fraction>>>) -> bool {
    forall|i: int, g: int|
        0 <= i < t.len() && t[i].is_some() && 0 <= g < t[i].unwrap().len()
            ==> (#[trigger] t[i].unwrap()[g]).is_unit()
}

/// Every present need schedule is positive.
pub open spec fn positive_needs(t: Seq<Option<Seq<u64>>>) -> bool {
    forall|i: int| 0 <= i < t.len() && (#[trigger] t[i]).is_some() ==> all_positive(t[i].unwrap())
}

impl World {
    /// Number of agents in the store.
    pub open spec fn agents(&self) -> nat {
        self.stockpiles@.len()
    }

    /// The store's invariant: one slot per agent in every table, one entry
    /// per good in every component, stock within `MAX_QUANTITY`, banked
    /// amounts within twice that, fills in `[0, 1]` and positive needs.
    pub open spec fn wf(&self) -> bool {
        let n = self.n_goods as nat;
        &&& self.needs@.len() == self.agents()
        &&& self.fills@.len() == self.agents()
        &&& self.keeps@.len() == self.agents()
        &&& self.beliefs@.len() == self.agents()
        &&& self.acts@.len() == self.agents()
        &&& forall|i: int| 0 <= i < self.agents() && (#[trigger] self.beliefs@[i]).is_some()
            ==> self.beliefs@[i].unwrap().wf()
        &&& sized(stock_view(self.stockpiles@), n)
        &&& sized(needs_view(self.needs@), n)
        &&& sized(fills_view(self.fills@), n)
        &&& sized(keeps_view(self.keeps@), n)
        &&& bounded(stock_view(self.stockpiles@), MAX_QUANTITY as int)
        &&& bounded(keeps_view(self.keeps@), 2 * MAX_QUANTITY)
        &&& unit_fills(fills_view(self.fills@))
        &&& positive_needs(needs_view(self.needs@))
    }

    /// An empty store over a good table of `n_goods` goods.
    pub fn new(n_goods: usize) -> (r: World)
        ensures
            r.wf(),
            r.n_goods == n_goods,
            r.agents() == 0,
    {
        let r = World {
            n_goods,
            stockpiles: Vec::new(),
            needs: Vec::new(),
            fills: Vec::new(),
            keeps: Vec::new(),
            beliefs: Vec::new(),
            acts: Vec::new(),
        };
        assert(stock_view(r.stockpiles@) =~= Seq::empty());
        assert(needs_view(r.needs@) =~= Seq::empty());
        assert(fills_view(r.fills@) =~= Seq::empty());
        assert(keeps_view(r.keeps@) =~= Seq::empty());
        r
    }

    /// Adds an agent with the given stockpile and need schedule, no
    /// satisfaction, nothing banked, no relations and no activities;
    /// returns its index.
    ///
    /// Fails with `GoodCountMismatch` when either vector does not have one
    /// entry per good, then with `QuantityTooLarge` when a stock entry
    /// exceeds `MAX_QUANTITY`, then with `InvalidNeed` when a need is zero.
    /// On failure the store is unchanged.
    pub fn create_agent(&mut self, goods: Vec<u64>, needs: Vec<u64>) -> (r: Result<usize, SimError>)
        requires
            old(self).wf(),
        ensures
            final(self).wf(),
            final(self).n_goods == old(self).n_goods,
            goods@.len() != old(self).n_goods || needs@.len() != old(self).n_goods
                ==> r == Err::<usize, SimError>(SimError::GoodCountMismatch),
            goods@.len() == old(self).n_goods && needs@.len() == old(self).n_goods
                && !within_max(goods@)
                ==> r == Err::<usize, SimError>(SimError::QuantityTooLarge),
            goods@.len() == old(self).n_goods && needs@.len() == old(self).n_goods
                && within_max(goods@) && !all_positive(needs@)
                ==> r == Err::<usize, SimError>(SimError::InvalidNeed),
            r.is_err() ==> *final(self) == *old(self),
            r.is_ok() <==> (goods@.len() == old(self).n_goods && needs@.len() == old(self).n_goods
                && within_max(goods@) && all_positive(needs@)),
            r.is_ok() ==> {
                &&& r.unwrap() == old(self).agents()
                &&& stock_view(final(self).stockpiles@) == stock_view(old(self).stockpiles@).push(Some(goods@))
                &&& needs_view(final(self).needs@) == needs_view(old(self).needs@).push(Some(needs@))
                &&& fills_view(final(self).fills@) == fills_view(old(self).fills@).push(
                    Some(Seq::new(old(self).n_goods as nat, |g: int| Fraction { num: 0, den: 1 })),
                )
                &&& keeps_view(final(self).keeps@) == keeps_view(old(self).keeps@).push(
                    Some(Seq::new(old(self).n_goods as nat, |g: int| 0u64)),
                )
                &&& final(self).beliefs@.len() == old(self).beliefs@.len() + 1
                &&& final(self).acts@.len() == old(self).acts@.len() + 1
            },
    {
        if goods.len() != self.n_goods || needs.len() != self.n_goods {
            return Err(SimError::GoodCountMismatch);
        }
        let mut g: usize = 0;
        while g < goods.len()
            invariant
                *self == *old(self),
                self.wf(),
                goods@.len() == self.n_goods,
                needs@.len() == self.n_goods,
                g <= goods@.len(),
                forall|h: int| 0 <= h < g ==> goods@[h] <= MAX_QUANTITY,
            decreases goods@.len() - g,
        {
            if goods[g] > MAX_QUANTITY {
                return Err(SimError::QuantityTooLarge);
            }
            g = g + 1;
        }
        let schedule = match Needs::new(needs) {
            Ok(s) => s,
            Err(e) => {
                return Err(e);
            },
        };
        let n = self.n_goods;
        let ghost st = stock_view(self.stockpiles@);
        let ghost nt = needs_view(self.needs@);
        let ghost ft = fills_view(self.fills@);
        let ghost kt = keeps_view(self.keeps@);
        let ghost gv = goods@;
        let id = self.stockpiles.len();
        self.stockpiles.push(Some(Stockpile { goods }));
        self.needs.push(Some(schedule));
        self.fills.push(Some(Fills { fills: no_fills(n) }));
        self.keeps.push(Some(Keeps { keeps: zeros(n) }));
        self.beliefs.push(Some(Beliefs::new()));
        self.acts.push(Some(Acts { acts: Vec::new() }));
        assert(stock_view(self.stockpiles@) =~= st.push(Some(gv)));
        assert(needs_view(self.needs@) =~= nt.push(Some(needs@)));
        assert(fills_view(self.fills@) =~= ft.push(
            Some(Seq::new(n as nat, |g: int| Fraction { num: 0, den: 1 })),
        ));
        assert(keeps_view(self.keeps@) =~= kt.push(Some(Seq::new(n as nat, |g: int| 0u64))));
        Ok(id)
    }

    /// A store over `n_goods` goods holding one agent per seed, in order.
    /// Fails with the error of the first unacceptable seed.
    pub fn seeded(n_goods: usize, seeds: Vec<Seed>) -> (r: Result<World, SimError>)
        ensures
            r.is_ok() <==> forall|k: int| 0 <= k < seeds@.len() ==> seed_ok(n_goods, #[trigger] seeds@[k]),
            r.is_ok() ==> {
                let w = r.unwrap();
                &&& w.wf()
                &&& w.n_goods == n_goods
                &&& w.agents() == seeds@.len()
                &&& forall|k: int| 0 <= k < seeds@.len() ==> seeded_as(w, k, #[trigger] seeds@[k])
            },
            r.is_err() ==> exists|k: int|
                0 <= k < seeds@.len() && !seed_ok(n_goods, #[trigger] seeds@[k])
                    && r == Err::<World, SimError>(seed_error(n_goods, seeds@[k]))
                    && forall|j: int| 0 <= j < k ==> seed_ok(n_goods, seeds@[j]),
    {
        let ghost all = seeds@;
        let total = seeds.len();
        let mut w = World::new(n_goods);
        let mut rest = seeds;
        let mut k: usize = 0;
        while rest.len() > 0
            invariant
                all == seeds@,
                all.len() == total,
                w.wf(),
                w.n_goods == n_goods,
                k <= all.len(),
                rest@ == all.subrange(k as int, all.len() as int),
                w.agents() == k,
                forall|j: int| 0 <= j < k ==> seed_ok(n_goods, #[trigger] all[j]),
                forall|j: int| 0 <= j < k ==> seeded_as(w, j, #[trigger] all[j]),
            decreases rest@.len(),
        {
            assert(k < all.len());
            let s = rest.remove(0);
            assert(s == all[k as int]);
            let ghost before = w;
            match w.create_agent(s.goods, s.needs) {
                Ok(_) => {},
                Err(e) => {
                    assert(!seed_ok(n_goods, all[k as int]));
                    assert(e == seed_error(n_goods, all[k as int]));
                    assert(!seed_ok(n_goods, seeds@[k as int]));
                    return Err(e);
                },
            }
            proof {
                assert forall|j: int| 0 <= j < k implies seeded_as(w, j, #[trigger] all[j]) by {
                    assert(seeded_as(before, j, all[j]));
                }
                assert(seeded_as(w, k as int, all[k as int]));
            }
            k = k + 1;
            assert(rest@ =~= all.subrange(k as int, all.len() as int));
        }
        Ok(w)
    }

    /// One pass of the system pipeline under the given flag: decay, then
    /// consumption. With the flag at `Wait` nothing changes.
    pub fn run_pipeline(&mut self, status: SimStatus)
        requires
            old(self).wf(),
        ensures
            final(self).wf(),
            final(self).n_goods == old(self).n_goods,
            final(self).needs@ == old(self).needs@,
            status == SimStatus::Wait ==> *final(self) == *old(self),
            status == SimStatus::Run ==> pipeline_step(*old(self), *final(self)),
    {
        if status == SimStatus::Wait {
            return;
        }
        let ghost before = *self;
        decay_run(&mut self.keeps, status);
        proof {
            lemma_decayed_ready(&before);
        }
        consumption_run(&mut self.stockpiles, &mut self.fills, &mut self.keeps, &self.needs, status);
        proof {
            lemma_consumed_wf(&before, self);
        }
    }
}

/// Initial data for one agent: its stockpile and its need schedule.
#[derive(Clone, Debug)]
pub struct Seed {
    pub goods: Vec<u64>,
    pub needs: Vec<u64>,
}

/// Whether a seed is acceptable for a good table of `n` goods.
pub open spec fn seed_ok(n: usize, s: Seed) -> bool {
    s.goods@.len() == n && s.needs@.len() == n && within_max(s.goods@) && all_positive(s.needs@)
}

/// The error `create_agent` reports for an unacceptable seed.
pub open spec fn seed_error(n: usize, s: Seed) -> SimError {
    if s.goods@.len() != n || s.needs@.len() != n {
        SimError::GoodCountMismatch
    } else if !within_max(s.goods@) {
        SimError::QuantityTooLarge
    } else {
        SimError::InvalidNeed
    }
}

/// Agent `i` of `w` holds exactly what seed `s` gave it.
pub open spec fn seeded_as(w: World, i: int, s: Seed) -> bool {
    &&& stock_view(w.stockpiles@)[i] == Some(s.goods@)
    &&& needs_view(w.needs@)[i] == Some(s.needs@)
    &&& fills_view(w.fills@)[i] == Some(Seq::new(w.n_goods as nat, |g: int| Fraction { num: 0, den: 1 }))
    &&& keeps_view(w.keeps@)[i] == Some(Seq::new(w.n_goods as nat, |g: int| 0u64))
}

/// `after` is `before` after one pipeline pass with the flag at `Run`:
/// every banked quantity is halved, then consumption runs on the halved
/// keeps.
pub open spec fn pipeline_step(before: World, after: World) -> bool {
    let st = stock_view(before.stockpiles@);
    let ft = fills_view(before.fills@);
    let kt = decayed(keeps_view(before.keeps@));
    let nt = needs_view(before.needs@);
    &&& after.n_goods == before.n_goods
    &&& after.needs@ == before.needs@
    &&& after.beliefs@ == before.beliefs@
    &&& after.acts@ == before.acts@
    &&& stock_view(after.stockpiles@) == consumed_stock_table(st, ft, kt, nt)
    &&& fills_view(after.fills@) == consumed_fills_table(st, ft, kt, nt)
    &&& keeps_view(after.keeps@) == consumed_keeps_table(st, ft, kt, nt)
}

/// Every entry is at most `MAX_QUANTITY`.
pub open spec fn within_max(v: Seq<u64>) -> bool {
    forall|g: int| 0 <= g < v.len() ==> v[g] <= MAX_QUANTITY
}

/// `n` zero quantities.
fn zeros(n: usize) -> (r: Vec<u64>)
    ensures
        r@ == Seq::new(n as nat, |g: int| 0u64),
{
    let mut r: Vec<u64> = Vec::new();
    let mut g: usize = 0;
    while g < n
        invariant
            g <= n,
            r@ == Seq::new(g as nat, |h: int| 0u64),
        decreases n - g,
    {
        r.push(0);
        g = g + 1;
        assert(r@ =~= Seq::new(g as nat, |h: int| 0u64));
    }
    r
}

/// `n` zero satisfactions.
fn no_fills(n: usize) -> (r: Vec<Fraction>)
    ensures
        r@ == Seq::new(n as nat, |g: int| Fraction { num: 0, den: 1 }),
{
    let mut r: Vec<Fraction> = Vec::new();
    let mut g: usize = 0;
    while g < n
        invariant
            g <= n,
            r@ == Seq::new(g as nat, |h: int| Fraction { num: 0, den: 1 }),
        decreases n - g,
    {
        r.push(Fraction::zero());
        g = g + 1;
        assert(r@ =~= Seq::new(g as nat, |h: int| Fraction { num: 0, den: 1 }));
    }
    r
}

/// After decay, a well-formed store is ready for consumption.
proof fn lemma_decayed_ready(w: &World)
    requires
        w.wf(),
    ensures
        consumption_ready(
            stock_view(w.stockpiles@),
            fills_view(w.fills@),
            decayed(keeps_view(w.keeps@)),
            needs_view(w.needs@),
        ),
        bounded(decayed(keeps_view(w.keeps@)), MAX_QUANTITY as int),
        sized(decayed(keeps_view(w.keeps@)), w.n_goods as nat),
{
    let st = stock_view(w.stockpiles@);
    let kt = keeps_view(w.keeps@);
    let kd = decayed(kt);
    assert forall|i: int, g: int|
        0 <= i < kd.len() && kd[i].is_some() && 0 <= g < kd[i].unwrap().len()
            implies #[trigger] kd[i].unwrap()[g] <= MAX_QUANTITY by {
        assert(kt[i].is_some());
        assert(kt[i].unwrap()[g] <= 2 * MAX_QUANTITY);
    }
    assert forall|i: int| 0 <= i < kd.len() && (#[trigger] kd[i]).is_some()
        implies kd[i].unwrap().len() == w.n_goods as nat by {
        assert(kt[i].is_some());
    }
    assert forall|i: int|
        0 <= i < st.len() && #[trigger] consumes(st, fills_view(w.fills@), kd, needs_view(w.needs@), i)
        implies {
            &&& st[i].unwrap().len() == needs_view(w.needs@)[i].unwrap().len()
            &&& kd[i].unwrap().len() == needs_view(w.needs@)[i].unwrap().len()
            &&& forall|g: int| 0 <= g < needs_view(w.needs@)[i].unwrap().len()
                ==> kd[i].unwrap()[g] + st[i].unwrap()[g] <= u64::MAX
        } by {
        assert(st[i].is_some());
        assert(needs_view(w.needs@)[i].is_some());
        assert forall|g: int| 0 <= g < needs_view(w.needs@)[i].unwrap().len()
            implies kd[i].unwrap()[g] + st[i].unwrap()[g] <= u64::MAX by {
            assert(kd[i].unwrap()[g] <= MAX_QUANTITY);
            assert(st[i].unwrap()[g] <= MAX_QUANTITY);
        }
    }
}

/// A consumption pass after decay leaves the store well formed.
proof fn lemma_consumed_wf(before: &World, after: &World)
    requires
        before.wf(),
        after.n_goods == before.n_goods,
        after.needs@ == before.needs@,
        after.beliefs@ == before.beliefs@,
        after.acts@ == before.acts@,
        after.stockpiles@.len() == before.stockpiles@.len(),
        after.fills@.len() == before.fills@.len(),
        after.keeps@.len() == before.keeps@.len(),
        ({
            let st = stock_view(before.stockpiles@);
            let ft = fills_view(before.fills@);
            let kt = decayed(keeps_view(before.keeps@));
            let nt = needs_view(before.needs@);
            &&& stock_view(after.stockpiles@) == consumed_stock_table(st, ft, kt, nt)
            &&& fills_view(after.fills@) == consumed_fills_table(st, ft, kt, nt)
            &&& keeps_view(after.keeps@) == consumed_keeps_table(st, ft, kt, nt)
        }),
    ensures
        after.wf(),
{
    let st = stock_view(before.stockpiles@);
    let ft = fills_view(before.fills@);
    let kt = decayed(keeps_view(before.keeps@));
    let nt = needs_view(before.needs@);
    let n = before.n_goods as nat;
    lemma_decayed_ready(before);
    let st2 = stock_view(after.stockpiles@);
    let ft2 = fills_view(after.fills@);
    let kt2 = keeps_view(after.keeps@);
    assert forall|i: int| 0 <= i < st2.len() && (#[trigger] st2[i]).is_some()
        implies st2[i].unwrap().len() == n by {
        assert(st[i].is_some());
    }
    assert forall|i: int| 0 <= i < ft2.len() && (#[trigger] ft2[i]).is_some()
        implies ft2[i].unwrap().len() == n by {
        if !consumes(st, ft, kt, nt, i) {
            assert(ft[i].is_some());
        }
    }
    assert forall|i: int| 0 <= i < kt2.len() && (#[trigger] kt2[i]).is_some()
        implies kt2[i].unwrap().len() == n by {
        if !consumes(st, ft, kt, nt, i) {
            assert(kt[i].is_some());
        }
    }
    assert forall|i: int, g: int|
        0 <= i < st2.len() && st2[i].is_some() && 0 <= g < st2[i].unwrap().len()
            implies #[trigger] st2[i].unwrap()[g] <= MAX_QUANTITY by {
        assert(st[i].is_some());
        assert(st[i].unwrap()[g] <= MAX_QUANTITY);
    }
    assert forall|i: int, g: int|
        0 <= i < kt2.len() && kt2[i].is_some() && 0 <= g < kt2[i].unwrap().len()
            implies #[trigger] kt2[i].unwrap()[g] <= 2 * MAX_QUANTITY by {
        assert(kt[i].is_some());
        assert(kt[i].unwrap()[g] <= MAX_QUANTITY);
        if consumes(st, ft, kt, nt, i) {
            assert(st[i].unwrap()[g] <= MAX_QUANTITY);
        }
    }
    assert forall|i: int, g: int|
        0 <= i < ft2.len() && ft2[i].is_some() && 0 <= g < ft2[i].unwrap().len()
            implies (#[trigger] ft2[i].unwrap()[g]).is_unit() by {
        if consumes(st, ft, kt, nt, i) {
            assert(nt[i].unwrap()[g] > 0);
        } else {
            assert(ft[i].is_some());
        }
    }
    assert(needs_view(after.needs@) == nt);
}

} // verus!
