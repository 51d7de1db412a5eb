use econ_sim::{
    attempt_production, attempt_trade, consumption_run, decay_run, ration, Beliefs, Event,
    Fills, Fraction, Keeps, Needs, Offer, Phase, Production, Seed, SimError, SimStatus, Simulation,
    Stockpile, World, MAX_QUANTITY, TRUST_DEFAULT, TRUST_FULL, TRUST_STEP,
};

fn one_agent(goods: Vec<u64>, needs: Vec<u64>) -> World {
    let mut w = World::new(goods.len());
    assert_eq!(w.create_agent(goods, needs), Ok(0));
    w
}

fn stock(w: &World, i: usize) -> Vec<u64> {
    w.stockpiles[i].as_ref().unwrap().goods.clone()
}

fn keeps(w: &World, i: usize) -> Vec<u64> {
    w.keeps[i].as_ref().unwrap().keeps.clone()
}

fn fills(w: &World, i: usize) -> Vec<Fraction> {
    w.fills[i].as_ref().unwrap().fills.clone()
}

fn tick(sim: &mut Simulation) {
    assert!(sim.handle_event(Event::Advance));
    sim.update();
}

#[test]
fn ration_branch_exactness() {
    assert_eq!(ration(4, 3), (2, 2, Fraction { num: 2, den: 3 }));
    let mut w = one_agent(vec![4], vec![3]);
    w.run_pipeline(SimStatus::Run);
    assert_eq!(stock(&w, 0), vec![2]);
    assert_eq!(keeps(&w, 0), vec![2]);
    assert_eq!(fills(&w, 0), vec![Fraction { num: 2, den: 3 }]);
}

#[test]
fn full_satisfaction_exactness() {
    assert_eq!(ration(10, 1), (9, 1, Fraction { num: 1, den: 1 }));
    let mut w = one_agent(vec![10], vec![1]);
    w.run_pipeline(SimStatus::Run);
    assert_eq!(stock(&w, 0), vec![9]);
    assert_eq!(keeps(&w, 0), vec![1]);
    assert_eq!(fills(&w, 0), vec![Fraction::one()]);
}

#[test]
fn ration_boundary_is_not_full() {
    // half the stock equals the need: ration case
    assert_eq!(ration(6, 3), (3, 3, Fraction { num: 3, den: 3 }));
    // an odd stock just above twice the need is fully satisfied
    assert_eq!(ration(7, 3), (4, 3, Fraction::one()));
    // nothing held: nothing kept, zero satisfaction
    assert_eq!(ration(0, 5), (0, 0, Fraction { num: 0, den: 5 }));
}

#[test]
fn decay_then_consumption_ordering() {
    let mut w = one_agent(vec![0, 10], vec![1, 1]);
    w.keeps[0] = Some(Keeps { keeps: vec![4, 0] });
    w.run_pipeline(SimStatus::Run);
    assert_eq!(keeps(&w, 0), vec![2, 1]);
    assert_eq!(stock(&w, 0), vec![0, 9]);
    assert_eq!(fills(&w, 0), vec![Fraction { num: 0, den: 1 }, Fraction::one()]);
}

#[test]
fn decay_halves_rounding_down() {
    let mut t = vec![Some(Keeps { keeps: vec![4, 5, 0] }), None];
    decay_run(&mut t, SimStatus::Run);
    assert_eq!(t[0].as_ref().unwrap().keeps, vec![2, 2, 0]);
    assert!(t[1].is_none());
}

#[test]
fn waiting_flag_leaves_keeps_unchanged() {
    let mut t = vec![Some(Keeps { keeps: vec![8, 3] })];
    for _ in 0..5 {
        decay_run(&mut t, SimStatus::Wait);
    }
    assert_eq!(t[0].as_ref().unwrap().keeps, vec![8, 3]);
    let mut w = one_agent(vec![10], vec![1]);
    w.keeps[0] = Some(Keeps { keeps: vec![6] });
    for _ in 0..3 {
        w.run_pipeline(SimStatus::Wait);
    }
    assert_eq!(keeps(&w, 0), vec![6]);
    assert_eq!(stock(&w, 0), vec![10]);
    assert_eq!(SimStatus::default(), SimStatus::Wait);
}

#[test]
fn consumption_skips_agents_without_all_components() {
    let mut st = vec![Some(Stockpile { goods: vec![10] }), Some(Stockpile { goods: vec![10] })];
    let mut fl = vec![Some(Fills { fills: vec![Fraction::zero()] }), None];
    let mut kp = vec![Some(Keeps { keeps: vec![0] }), Some(Keeps { keeps: vec![0] })];
    let nd = vec![Some(Needs::new(vec![2]).unwrap()), Some(Needs::new(vec![2]).unwrap())];
    consumption_run(&mut st, &mut fl, &mut kp, &nd, SimStatus::Run);
    assert_eq!(st[0].as_ref().unwrap().goods, vec![8]);
    assert_eq!(kp[0].as_ref().unwrap().keeps, vec![2]);
    assert_eq!(st[1].as_ref().unwrap().goods, vec![10]);
    assert_eq!(kp[1].as_ref().unwrap().keeps, vec![0]);
    consumption_run(&mut st, &mut fl, &mut kp, &nd, SimStatus::Wait);
    assert_eq!(st[0].as_ref().unwrap().goods, vec![8]);
}

#[test]
fn fills_and_stock_stay_in_range_over_ticks() {
    let mut w = one_agent(vec![9, 1, 100], vec![4, 3, 7]);
    for _ in 0..20 {
        w.run_pipeline(SimStatus::Run);
        for f in fills(&w, 0) {
            assert!(f.den > 0 && f.num <= f.den);
        }
        for (s, k) in stock(&w, 0).iter().zip(keeps(&w, 0).iter()) {
            assert!(*s <= MAX_QUANTITY && *k <= 2 * MAX_QUANTITY);
        }
    }
}

#[test]
fn end_to_end_one_tick() {
    // quantities in thousandths: wheat, meat, water
    let seeds = vec![Seed { goods: vec![10_000, 5_000, 20_000], needs: vec![1_000, 500, 1_000] }];
    let mut sim = Simulation::load(3, seeds).unwrap();
    assert_eq!(sim.stack, vec![Phase::Load]);
    assert_eq!(sim.status, SimStatus::Wait);
    assert_eq!(keeps(&sim.world, 0), vec![0, 0, 0]);
    sim.update();
    assert_eq!(sim.stack, vec![Phase::Wait { iter: 0 }]);
    tick(&mut sim);
    assert_eq!(stock(&sim.world, 0), vec![9_000, 4_500, 19_000]);
    assert_eq!(fills(&sim.world, 0), vec![Fraction::one(), Fraction::one(), Fraction::one()]);
    assert_eq!(keeps(&sim.world, 0), vec![1_000, 500, 1_000]);
    assert_eq!(sim.stack, vec![Phase::Wait { iter: 1 }]);
}

#[test]
fn flag_is_run_only_inside_a_pass() {
    let seeds = vec![Seed { goods: vec![10], needs: vec![1] }];
    let mut sim = Simulation::load(1, seeds).unwrap();
    assert_eq!(sim.status, SimStatus::Wait);
    assert!(!sim.handle_event(Event::Advance));
    sim.update();
    assert_eq!(sim.status, SimStatus::Wait);
    assert!(!sim.handle_event(Event::Other));
    assert_eq!(sim.status, SimStatus::Wait);
    assert_eq!(sim.stack, vec![Phase::Wait { iter: 0 }]);
    assert!(sim.handle_event(Event::Advance));
    assert_eq!(sim.status, SimStatus::Run);
    assert_eq!(sim.stack, vec![Phase::Wait { iter: 0 }, Phase::Run { iter: 0 }]);
    assert!(!sim.handle_event(Event::Advance));
    sim.update();
    assert_eq!(sim.status, SimStatus::Wait);
    assert_eq!(sim.stack, vec![Phase::Wait { iter: 1 }]);
    sim.update();
    assert_eq!(stock(&sim.world, 0), vec![9]);
}

#[test]
fn beliefs_symmetry() {
    let mut b = Beliefs::new();
    assert_eq!(b.get(1, 2), None);
    b.record(2, 1, 700, 5);
    assert_eq!(b.get(1, 2), Some((700, 5)));
    assert_eq!(b.get(2, 1), Some((700, 5)));
    b.record(1, 2, 800, 6);
    assert_eq!(b.len(), 1);
    assert_eq!(b.get(2, 1), Some((800, 6)));
    b.record(1, 3, 100, 0);
    assert_eq!(b.len(), 2);
}

#[test]
fn belief_entries_compare_by_unordered_pair() {
    let x = econ_sim::BeliefEntry { id: 1, id_other: 4, trust: 3, amount: 9 };
    let y = econ_sim::BeliefEntry { id: 4, id_other: 1, trust: 0, amount: 0 };
    let z = econ_sim::BeliefEntry { id: 4, id_other: 2, trust: 3, amount: 9 };
    assert!(x == y);
    assert!(x != z);
}

#[test]
fn invalid_seeds_are_rejected() {
    let mut w = World::new(2);
    assert_eq!(w.create_agent(vec![1, 2], vec![1, 0]), Err(SimError::InvalidNeed));
    assert_eq!(w.create_agent(vec![1], vec![1, 1]), Err(SimError::GoodCountMismatch));
    assert_eq!(w.create_agent(vec![MAX_QUANTITY + 1, 0], vec![1, 1]), Err(SimError::QuantityTooLarge));
    assert_eq!(w.stockpiles.len(), 0);
    assert_eq!(w.create_agent(vec![MAX_QUANTITY, 0], vec![1, 1]), Ok(0));
    assert_eq!(w.create_agent(vec![0, 0], vec![1, 1]), Ok(1));
    assert!(Needs::new(vec![0]).is_err());
    assert_eq!(Needs::new(vec![3, 4]).unwrap().get(1), 4);
}

#[test]
fn fraction_equality_by_value() {
    assert!(Fraction { num: 2, den: 3 }.equals(&Fraction { num: 2_000, den: 3_000 }));
    assert!(!Fraction { num: 2, den: 3 }.equals(&Fraction::one()));
    assert!(Fraction::zero().equals(&Fraction { num: 0, den: 7 }));
}

fn recipe() -> Production {
    // good 0 is the cost unit; two of good 1 make one of good 2
    Production { id: 0, cost_fixed: 3, cost_scale: 1, inputs: vec![0, 2, 0], outputs: vec![0, 0, 1] }
}

#[test]
fn production_scales_inputs_outputs_and_cost() {
    assert_eq!(attempt_production(&vec![10, 8, 1], &recipe(), 2), Ok(vec![5, 4, 3]));
    assert_eq!(attempt_production(&vec![10, 8, 1], &recipe(), 0), Ok(vec![10, 8, 1]));
}

#[test]
fn production_is_all_or_nothing() {
    assert_eq!(attempt_production(&vec![10, 3, 1], &recipe(), 2), Err(SimError::InsufficientResources));
    assert_eq!(attempt_production(&vec![4, 8, 1], &recipe(), 2), Err(SimError::InsufficientResources));
    assert_eq!(attempt_production(&vec![10, 8], &recipe(), 1), Err(SimError::GoodCountMismatch));
    assert_eq!(
        attempt_production(&vec![10, 8, MAX_QUANTITY], &recipe(), 1),
        Err(SimError::QuantityTooLarge)
    );
}

fn offer() -> Offer {
    Offer { good_a: 0, qty_a: 10, good_b: 1, qty_b: 4 }
}

#[test]
fn trade_moves_goods_scaled_by_trust() {
    let mut a = vec![20, 0];
    let mut b = vec![0, 6];
    let mut bel = Beliefs::new();
    assert_eq!(TRUST_DEFAULT * 2, TRUST_FULL);
    assert_eq!(attempt_trade(0, 1, &mut a, &mut b, &mut bel, offer()), Ok((5, 2)));
    assert_eq!(a, vec![15, 2]);
    assert_eq!(b, vec![5, 4]);
    assert_eq!(bel.get(1, 0), Some((TRUST_DEFAULT + TRUST_STEP, 7)));
    assert_eq!(attempt_trade(1, 0, &mut b, &mut a, &mut bel, Offer { good_a: 1, qty_a: 4, good_b: 0, qty_b: 10 }), Ok((2, 5)));
    assert_eq!(bel.len(), 1);
}

#[test]
fn trade_failures() {
    let mut a = vec![20, 0];
    let mut b = vec![0, 1];
    let mut bel = Beliefs::new();
    assert_eq!(attempt_trade(0, 0, &mut a, &mut b, &mut bel, offer()), Err(SimError::InvalidRelation));
    let far = Offer { good_a: 5, qty_a: 1, good_b: 0, qty_b: 1 };
    assert_eq!(attempt_trade(0, 1, &mut a, &mut b, &mut bel, far), Err(SimError::UnknownGood));
    assert_eq!(bel.len(), 0);
    assert_eq!(attempt_trade(0, 1, &mut a, &mut b, &mut bel, offer()), Err(SimError::InsufficientResources));
    assert_eq!(a, vec![20, 0]);
    assert_eq!(b, vec![0, 1]);
    assert_eq!(bel.get(0, 1), Some((TRUST_DEFAULT - TRUST_STEP, 0)));
    let mut c = vec![0, MAX_QUANTITY];
    let mut d = vec![0, 4];
    let big = Offer { good_a: 0, qty_a: 0, good_b: 1, qty_b: 4 };
    let mut fresh = Beliefs::new();
    assert_eq!(attempt_trade(0, 1, &mut c, &mut d, &mut fresh, big), Err(SimError::QuantityTooLarge));
    assert_eq!(c, vec![0, MAX_QUANTITY]);
}

#[test]
fn load_reports_first_bad_seed() {
    let seeds = vec![
        Seed { goods: vec![1, 1], needs: vec![1, 1] },
        Seed { goods: vec![1, 1], needs: vec![0, 1] },
        Seed { goods: vec![1], needs: vec![1, 1] },
    ];
    assert_eq!(Simulation::load(2, seeds).err(), Some(SimError::InvalidNeed));
    let two = vec![Seed { goods: vec![3, 4], needs: vec![1, 2] }, Seed { goods: vec![0, 9], needs: vec![5, 5] }];
    let w = World::seeded(2, two).unwrap();
    assert_eq!(stock(&w, 1), vec![0, 9]);
    assert_eq!(w.needs[0].as_ref().unwrap().get(1), 2);
}
