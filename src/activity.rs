use vstd::prelude::*;
use crate::beliefs::{pair_key, Beliefs};
use crate::components::SimError;
use crate::quantity::MAX_QUANTITY;

verus! {

/// Complete trust, in thousandths.
pub const TRUST_FULL: u64 = 1000;

/// Trust assumed for a pair that has no relation yet.
pub const TRUST_DEFAULT: u64 = 500;

/// How far one trade moves trust.
pub const TRUST_STEP: u64 = 50;

/// A production recipe: per unit of scale it turns `inputs` into
/// `outputs`, and it costs `cost_fixed + cost_scale * k` of good `id` when
/// run at a scale `k > 0`.
#[derive(Clone, Debug)]
pub struct Production {
    pub id: usize,
    pub cost_fixed: u64,
    pub cost_scale: u64,
    pub inputs: Vec<u64>,
    pub outputs: Vec<u64>,
}

/// Terms of a bilateral exchange; quantities are negotiated per trade.
#[derive(Clone, Copy, Debug, PartialEq, Eq, Structural)]
pub struct Trade {
    pub cost_fixed: u64,
    pub cost_scale: u64,
}

/// An activity an agent may carry out.
#[derive(Clone, Debug)]
pub enum Activity {
    Production(Production),
    Trade(Trade),
}

/// The activities available to an agent.
#[derive(Clone, Debug)]
pub struct Acts {
    pub acts: Vec<Activity>,
}

/// Whether a recipe fits a stockpile of `n` goods.
pub open spec fn recipe_fits(p: Production, n: nat) -> bool {
    p.inputs@.len() == n && p.outputs@.len() == n && p.id < n
}

/// The cost of running a recipe at scale `k`: nothing at scale zero.
pub open spec fn production_cost(p: Production, k: u64) -> int {
    if k > 0 {
        p.cost_fixed + p.cost_scale * k
    } else {
        0
    }
}

/// How much of good `g` running the recipe at scale `k` takes.
pub open spec fn requirement(p: Production, k: u64, g: int) -> int {
    k * p.inputs@[g] + if g == p.id {
        production_cost(p, k)
    } else {
        0
    }
}

/// Whether the stockpile holds every requirement.
pub open spec fn affordable(s: Seq<u64>, p: Production, k: u64) -> bool {
    forall|g: int| 0 <= g < s.len() ==> requirement(p, k, g) <= s[g]
}

/// The stock of good `g` after running the recipe at scale `k`.
pub open spec fn produced(s: Seq<u64>, p: Production, k: u64, g: int) -> int {
    s[g] - requirement(p, k, g) + k * p.outputs@[g]
}

/// Whether every resulting quantity stays within `MAX_QUANTITY`.
pub open spec fn output_fits(s: Seq<u64>, p: Production, k: u64) -> bool {
    forall|g: int| 0 <= g < s.len() ==> produced(s, p, k, g) <= MAX_QUANTITY
}

/// Runs a recipe at scale `k` on a stockpile, all or nothing.
///
/// Fails with `GoodCountMismatch` when the recipe does not fit the
/// stockpile, then with `InsufficientResources` when some requirement is
/// not held, then with `QuantityTooLarge` when a result would exceed
/// `MAX_QUANTITY`. Otherwise returns the new stockpile: inputs and cost
/// taken, outputs added.
pub fn attempt_production(stock: &Vec<u64>, p: &Production, k: u64) -> (r: Result<Vec<u64>, SimError>)
    ensures
        !recipe_fits(*p, stock@.len()) ==> r == Err::<Vec<u64>, SimError>(SimError::GoodCountMismatch),
        recipe_fits(*p, stock@.len()) && !affordable(stock@, *p, k)
            ==> r == Err::<Vec<u64>, SimError>(SimError::InsufficientResources),
        recipe_fits(*p, stock@.len()) && affordable(stock@, *p, k) && !output_fits(stock@, *p, k)
            ==> r == Err::<Vec<u64>, SimError>(SimError::QuantityTooLarge),
        r.is_ok() <==> (recipe_fits(*p, stock@.len()) && affordable(stock@, *p, k) && output_fits(
            stock@,
            *p,
            k,
        )),
        r.is_ok() ==> r.unwrap()@.len() == stock@.len() && forall|g: int|
            0 <= g < stock@.len() ==> r.unwrap()@[g] == produced(stock@, *p, k, g),
{
    let n = stock.len();
    if p.inputs.len() != n || p.outputs.len() != n || p.id >= n {
        return Err(SimError::GoodCountMismatch);
    }
    let kk = k as u128;
    let cost: u128 = if k > 0 {
        proof {
            assert(p.cost_scale * k <= u64::MAX * u64::MAX) by (nonlinear_arith)
                requires p.cost_scale <= u64::MAX, k <= u64::MAX;
        }
        p.cost_fixed as u128 + p.cost_scale as u128 * kk
    } else {
        0
    };
    assert(cost <= u64::MAX + u64::MAX * u64::MAX) by (nonlinear_arith)
        requires cost == production_cost(*p, k), p.cost_scale <= u64::MAX, k <= u64::MAX,
            p.cost_fixed <= u64::MAX;
    let mut g: usize = 0;
    while g < n
        invariant
            n == stock@.len(),
            recipe_fits(*p, n as nat),
            kk == k,
            cost == production_cost(*p, k),
            cost <= u64::MAX + u64::MAX * u64::MAX,
            g <= n,
            forall|h: int| 0 <= h < g ==> requirement(*p, k, h) <= stock@[h],
        decreases n - g,
    {
        proof {
            assert(k * p.inputs@[g as int] <= u64::MAX * u64::MAX) by (nonlinear_arith)
                requires p.inputs@[g as int] <= u64::MAX, k <= u64::MAX;
        }
        let need = kk * (p.inputs[g] as u128);
        if need > stock[g] as u128 {
            return Err(SimError::InsufficientResources);
        }
        let total = if g == p.id {
            need + cost
        } else {
            need
        };
        if total > stock[g] as u128 {
            return Err(SimError::InsufficientResources);
        }
        g = g + 1;
    }
    let mut out: Vec<u64> = Vec::new();
    let mut g: usize = 0;
    while g < n
        invariant
            n == stock@.len(),
            recipe_fits(*p, n as nat),
            affordable(stock@, *p, k),
            kk == k,
            cost == production_cost(*p, k),
            cost <= u64::MAX + u64::MAX * u64::MAX,
            g <= n,
            out@.len() == g,
            forall|h: int| 0 <= h < g ==> out@[h] == produced(stock@, *p, k, h),
            forall|h: int| 0 <= h < g ==> produced(stock@, *p, k, h) <= MAX_QUANTITY,
        decreases n - g,
    {
        proof {
            assert(k * p.inputs@[g as int] <= u64::MAX * u64::MAX) by (nonlinear_arith)
                requires p.inputs@[g as int] <= u64::MAX, k <= u64::MAX;
            assert(k * p.outputs@[g as int] <= u64::MAX * u64::MAX) by (nonlinear_arith)
                requires p.outputs@[g as int] <= u64::MAX, k <= u64::MAX;
            assert(requirement(*p, k, g as int) <= stock@[g as int]);
            assert(0 <= production_cost(*p, k));
        }
        let need = kk * (p.inputs[g] as u128);
        let total = if g == p.id {
            need + cost
        } else {
            need
        };
        let left = stock[g] as u128 - total;
        let gain = kk * (p.outputs[g] as u128);
        assert(left == stock@[g as int] - requirement(*p, k, g as int));
        assert(gain == k * p.outputs@[g as int]);
        if gain > MAX_QUANTITY as u128 || left + gain > MAX_QUANTITY as u128 {
            assert(produced(stock@, *p, k, g as int) > MAX_QUANTITY);
            return Err(SimError::QuantityTooLarge);
        }
        out.push((left + gain) as u64);
        g = g + 1;
    }
    Ok(out)
}

/// A proposed exchange: agent `a` offers `qty_a` of `good_a` and agent
/// `b` offers `qty_b` of `good_b`.
#[derive(Clone, Copy, Debug, PartialEq, Eq, Structural)]
pub struct Offer {
    pub good_a: usize,
    pub qty_a: u64,
    pub good_b: usize,
    pub qty_b: u64,
}

/// The trust between two agents: the recorded one, or the default.
pub open spec fn trust_of(m: Map<(usize, usize), (u64, u64)>, a: usize, b: usize) -> u64 {
    if m.contains_key(pair_key(a, b)) {
        m[pair_key(a, b)].0
    } else {
        TRUST_DEFAULT
    }
}

/// The part of an offered quantity an agent commits at trust `t`
/// (rounding down).
pub open spec fn committed(qty: u64, t: u64) -> int {
    qty * (if t <= TRUST_FULL { t } else { TRUST_FULL }) / (TRUST_FULL as int)
}

/// Trust after a completed trade: one step up, capped at full.
pub open spec fn trust_raised(t: u64) -> u64 {
    if t + TRUST_STEP >= TRUST_FULL {
        TRUST_FULL
    } else {
        (t + TRUST_STEP) as u64
    }
}

/// Trust after a failed trade: one step down, floored at zero.
pub open spec fn trust_lowered(t: u64) -> u64 {
    if t <= TRUST_STEP {
        0
    } else {
        (t - TRUST_STEP) as u64
    }
}

/// Agent `a`'s stockpile after giving `ca` of `ga` and receiving `cb` of `gb`.
pub open spec fn after_exchange(s: Seq<u64>, ga: usize, ca: int, gb: usize, cb: int) -> Seq<int> {
    let given = s.map_values(|q: u64| q as int).update(ga as int, s[ga as int] - ca);
    given.update(gb as int, given[gb as int] + cb)
}

/// Whether every quantity of an exchanged stockpile stays within
/// `MAX_QUANTITY`.
pub open spec fn exchange_fits(s: Seq<int>) -> bool {
    forall|g: int| 0 <= g < s.len() ==> s[g] <= MAX_QUANTITY
}

/// The stockpile values of an exchanged stockpile.
pub open spec fn as_ints(s: Seq<u64>) -> Seq<int> {
    s.map_values(|q: u64| q as int)
}

/// Carries out a trade between agents `a` and `b`.
///
/// Each side commits its offered quantity scaled by the pair's trust (the
/// recorded trust, or `TRUST_DEFAULT` for a pair without a relation).
/// Fails, changing nothing, with `InvalidRelation` when `a == b`, then
/// with `UnknownGood` when an offered good is outside either stockpile.
/// Fails with `InsufficientResources` when a side does not hold what it
/// commits: the stockpiles are unchanged and the pair's trust is lowered
/// one step with a last amount of zero. Fails, changing nothing, with
/// `QuantityTooLarge` when a resulting quantity would exceed
/// `MAX_QUANTITY`. Otherwise moves the goods, raises the pair's trust one
/// step, records the total moved as the last amount, and returns the two
/// committed quantities.
pub fn attempt_trade(
    a: usize,
    b: usize,
    stock_a: &mut Vec<u64>,
    stock_b: &mut Vec<u64>,
    beliefs: &mut Beliefs,
    offer: Offer,
) -> (r: Result<(u64, u64), SimError>)
    requires
        old(beliefs).wf(),
    ensures
        final(beliefs).wf(),
        ({
            let t = trust_of(old(beliefs)@, a, b);
            let ca = committed(offer.qty_a, t);
            let cb = committed(offer.qty_b, t);
            let sa = old(stock_a)@;
            let sb = old(stock_b)@;
            let known = offer.good_a < sa.len() && offer.good_a < sb.len() && offer.good_b < sa.len()
                && offer.good_b < sb.len();
            let held = ca <= sa[offer.good_a as int] && cb <= sb[offer.good_b as int];
            let na = after_exchange(sa, offer.good_a, ca, offer.good_b, cb);
            let nb = after_exchange(sb, offer.good_b, cb, offer.good_a, ca);
            &&& a == b ==> r == Err::<(u64, u64), SimError>(SimError::InvalidRelation)
            &&& a != b && !known ==> r == Err::<(u64, u64), SimError>(SimError::UnknownGood)
            &&& a != b && known && !held ==> {
                &&& r == Err::<(u64, u64), SimError>(SimError::InsufficientResources)
                &&& final(beliefs)@ == old(beliefs)@.insert(pair_key(a, b), (trust_lowered(t), 0u64))
            }
            &&& a != b && known && held && !(exchange_fits(na) && exchange_fits(nb))
                ==> r == Err::<(u64, u64), SimError>(SimError::QuantityTooLarge)
            &&& r.is_ok() <==> (a != b && known && held && exchange_fits(na) && exchange_fits(nb))
            &&& r.is_ok() ==> {
                &&& r.unwrap().0 == ca
                &&& r.unwrap().1 == cb
                &&& as_ints(final(stock_a)@) == na
                &&& as_ints(final(stock_b)@) == nb
                &&& final(beliefs)@ == old(beliefs)@.insert(
                    pair_key(a, b),
                    (trust_raised(t), (ca + cb) as u64),
                )
            }
            &&& r != Err::<(u64, u64), SimError>(SimError::InsufficientResources) && r.is_err()
                ==> final(beliefs)@ == old(beliefs)@
            &&& r.is_err() ==> final(stock_a)@ == sa && final(stock_b)@ == sb
        }),
{
    if a == b {
        return Err(SimError::InvalidRelation);
    }
    let ga = offer.good_a;
    let gb = offer.good_b;
    if ga >= stock_a.len() || ga >= stock_b.len() || gb >= stock_a.len() || gb >= stock_b.len() {
        return Err(SimError::UnknownGood);
    }
    let t = match beliefs.get(a, b) {
        Some(rel) => rel.0,
        None => TRUST_DEFAULT,
    };
    let ca = commit(offer.qty_a, t);
    let cb = commit(offer.qty_b, t);
    if ca > stock_a[ga] || cb > stock_b[gb] {
        beliefs.record(a, b, lowered(t), 0);
        return Err(SimError::InsufficientResources);
    }
    let ghost sa = stock_a@;
    let ghost sb = stock_b@;
    let a_after_give = stock_a[ga] - ca;
    let a_get = if gb == ga {
        a_after_give as u128 + cb as u128
    } else {
        stock_a[gb] as u128 + cb as u128
    };
    let b_after_give = stock_b[gb] - cb;
    let b_get = if ga == gb {
        b_after_give as u128 + ca as u128
    } else {
        stock_b[ga] as u128 + ca as u128
    };
    let fits_a = a_get <= MAX_QUANTITY as u128 && (ga == gb || a_after_give <= MAX_QUANTITY)
        && forall_within(stock_a, ga, gb);
    let fits_b = b_get <= MAX_QUANTITY as u128 && (ga == gb || b_after_give <= MAX_QUANTITY)
        && forall_within(stock_b, gb, ga);
    proof {
        let na = after_exchange(sa, ga, ca as int, gb, cb as int);
        let nb = after_exchange(sb, gb, cb as int, ga, ca as int);
        assert(na[gb as int] == a_get);
        assert(nb[ga as int] == b_get);
        if fits_a {
            assert forall|g: int| 0 <= g < na.len() implies na[g] <= MAX_QUANTITY by {
                if g != gb as int && g != ga as int {
                    assert(na[g] == sa[g]);
                }
            }
        }
        if exchange_fits(na) {
            assert(a_get <= MAX_QUANTITY);
            if ga != gb {
                assert(na[ga as int] == a_after_give);
            }
            assert forall|g: int| 0 <= g < sa.len() && g != ga as int && g != gb as int
                implies sa[g] <= MAX_QUANTITY by {
                assert(na[g] == sa[g]);
            }
        }
        if fits_b {
            assert forall|g: int| 0 <= g < nb.len() implies nb[g] <= MAX_QUANTITY by {
                if g != gb as int && g != ga as int {
                    assert(nb[g] == sb[g]);
                }
            }
        }
        if exchange_fits(nb) {
            assert(b_get <= MAX_QUANTITY);
            if ga != gb {
                assert(nb[gb as int] == b_after_give);
            }
            assert forall|g: int| 0 <= g < sb.len() && g != ga as int && g != gb as int
                implies sb[g] <= MAX_QUANTITY by {
                assert(nb[g] == sb[g]);
            }
        }
    }
    if !fits_a || !fits_b {
        return Err(SimError::QuantityTooLarge);
    }
    stock_a.set(ga, a_after_give);
    stock_a.set(gb, a_get as u64);
    stock_b.set(gb, b_after_give);
    stock_b.set(ga, b_get as u64);
    proof {
        assert(as_ints(stock_a@) =~= after_exchange(sa, ga, ca as int, gb, cb as int));
        assert(as_ints(stock_b@) =~= after_exchange(sb, gb, cb as int, ga, ca as int));
    }
    beliefs.record(a, b, raised(t), ca + cb);
    Ok((ca, cb))
}

/// Whether every entry of `s` other than those of goods `x` and `y` is
/// within `MAX_QUANTITY`.
fn forall_within(s: &Vec<u64>, x: usize, y: usize) -> (r: bool)
    ensures
        r == forall|g: int| 0 <= g < s@.len() && g != x && g != y ==> s@[g] <= MAX_QUANTITY,
{
    let mut g: usize = 0;
    while g < s.len()
        invariant
            g <= s@.len(),
            forall|h: int| 0 <= h < g && h != x && h != y ==> s@[h] <= MAX_QUANTITY,
        decreases s@.len() - g,
    {
        if g != x && g != y && s[g] > MAX_QUANTITY {
            return false;
        }
        g = g + 1;
    }
    true
}

/// The part of `qty` committed at trust `t`.
fn commit(qty: u64, t: u64) -> (r: u64)
    ensures
        r == committed(qty, t),
        r <= qty,
{
    let tc: u64 = if t <= TRUST_FULL { t } else { TRUST_FULL };
    proof {
        assert(qty * tc <= qty * TRUST_FULL) by (nonlinear_arith)
            requires tc <= TRUST_FULL;
        assert(qty * tc / (TRUST_FULL as int) <= qty) by (nonlinear_arith)
            requires tc <= TRUST_FULL, qty >= 0, tc >= 0;
    }
    ((qty as u128 * tc as u128) / (TRUST_FULL as u128)) as u64
}

/// Trust one step up.
fn raised(t: u64) -> (r: u64)
    ensures
        r == trust_raised(t),
{
    if t >= TRUST_FULL - TRUST_STEP {
        TRUST_FULL
    } else {
        t + TRUST_STEP
    }
}

/// Trust one step down.
fn lowered(t: u64) -> (r: u64)
    ensures
        r == trust_lowered(t),
{
    if t <= TRUST_STEP {
        0
    } else {
        t - TRUST_STEP
    }
}

} // verus!
