use corvus::double::Double;
use corvus::monitoring::metrics::{
    alert_hf, init, record_inclusion, record_position_close, record_position_open, record_sim_result,
    record_submission, record_trade, update_gas_reserve, update_inclusion_rate, update_ipc_latency,
    HealthAlert, Metrics, Tally,
};

fn d(x: f64) -> Double {
    Double { bits: x.to_bits() }
}

fn f(x: Double) -> f64 {
    f64::from_bits(x.bits)
}

fn total(t: &Tally, labels: &[&str]) -> Option<f64> {
    for i in 0..t.count() {
        let e = t.entry(i);
        if e.labels.iter().map(|s| s.as_str()).collect::<Vec<&str>>() == labels {
            return Some(f(e.total));
        }
    }
    None
}

#[test]
fn gauges_start_once() {
    let mut m = Metrics::new();
    init(&mut m);
    assert_eq!(f(m.rate_arb_min_hf), 99.0);
    assert_eq!(f(m.inclusion_rate), 0.0);
    assert_eq!(f(m.gas_reserve_eth), 0.0);
    alert_hf(&mut m, d(1.5));
    init(&mut m);
    assert_eq!(f(m.rate_arb_min_hf), 1.5);
}

#[test]
fn trades_add_up_by_strategy() {
    let mut m = Metrics::new();
    record_trade(&mut m, "tri_arb", d(1.25));
    record_trade(&mut m, "tri_arb", d(0.1));
    record_trade(&mut m, "liquidation", d(2.0));
    assert_eq!(m.trade_count, 3);
    assert_eq!(f(m.profit_total), 1.25 + 0.1 + 2.0);
    assert_eq!(total(&m.strategy_profit, &["tri_arb"]), Some(1.25 + 0.1));
    assert_eq!(total(&m.strategy_profit, &["liquidation"]), Some(2.0));
    assert_eq!(total(&m.strategy_profit, &["flash_jit"]), None);
    assert_eq!(m.strategy_profit.count(), 2);
}

#[test]
fn every_total_has_one_place() {
    let mut m = Metrics::new();
    for name in ["a", "b", "c", "b", "a", "d"] {
        record_trade(&mut m, name, d(1.0));
    }
    let t = &m.strategy_profit;
    let mut names: Vec<String> = (0..t.count()).map(|i| t.entry(i).labels[0].clone()).collect();
    names.sort();
    assert_eq!(names, vec!["a", "b", "c", "d"]);
    assert_eq!((0..t.count()).map(|i| f(t.entry(i).total)).sum::<f64>(), 6.0);
}

#[test]
fn simulations_are_counted_by_both_labels() {
    let mut m = Metrics::new();
    record_sim_result(&mut m, "bundle", "rejected");
    record_sim_result(&mut m, "bundle", "rejected");
    record_sim_result(&mut m, "cross_dex_arb", "submitted");
    assert_eq!(total(&m.sim_results, &["bundle", "rejected"]), Some(2.0));
    assert_eq!(total(&m.sim_results, &["cross_dex_arb", "submitted"]), Some(1.0));
    assert_eq!(total(&m.sim_results, &["bundle"]), None);
}

#[test]
fn the_inclusion_rate_is_a_share() {
    let mut m = Metrics::new();
    record_inclusion(&mut m);
    assert_eq!(f(m.inclusion_rate), 0.0);
    assert_eq!(m.included_total, 1);
    for _ in 0..3 {
        record_submission(&mut m);
    }
    assert_eq!((m.submission_count, m.submitted_total), (3, 3));
    record_inclusion(&mut m);
    assert_eq!(f(m.inclusion_rate), 2.0 / 3.0);
    record_inclusion(&mut m);
    assert_eq!(f(m.inclusion_rate), 1.0);
    // One more than were counted as submitted.
    record_inclusion(&mut m);
    assert_eq!((f(m.inclusion_rate), m.included_total, m.submitted_total), (1.0, 4, 3));
    update_inclusion_rate(&mut m, d(0.5));
    assert_eq!(f(m.inclusion_rate), 0.5);
}

#[test]
fn health_factors_are_alerted() {
    let mut m = Metrics::new();
    assert_eq!(alert_hf(&mut m, d(1.0999999)), Some(HealthAlert::Emergency));
    assert_eq!(alert_hf(&mut m, d(1.10)), Some(HealthAlert::Warning));
    assert_eq!(alert_hf(&mut m, d(1.1999999)), Some(HealthAlert::Warning));
    assert_eq!(alert_hf(&mut m, d(1.20)), None);
    assert_eq!(alert_hf(&mut m, d(f64::NAN)), None);
    assert!(f(m.rate_arb_min_hf).is_nan());
}

#[test]
fn opening_and_closing_cancel() {
    let mut m = Metrics::new();
    record_position_open(&mut m, "rate_arb");
    record_position_open(&mut m, "rate_arb");
    assert_eq!(f(m.active_positions), 2.0);
    record_position_close(&mut m, "rate_arb");
    record_position_close(&mut m, "rate_arb");
    assert_eq!(f(m.active_positions), 0.0);
    // A carry of an earlier run is closed without having been counted.
    record_position_close(&mut m, "rate_arb");
    record_position_close(&mut m, "rate_arb");
    assert_eq!(f(m.active_positions), -2.0);
    record_position_open(&mut m, "rate_arb");
    record_position_close(&mut m, "rate_arb");
    assert_eq!(f(m.active_positions), -2.0);
}

#[test]
fn the_gas_reserve_is_low_below_one() {
    let mut m = Metrics::new();
    assert!(update_gas_reserve(&mut m, d(0.999)));
    assert!(!update_gas_reserve(&mut m, d(1.0)));
    assert_eq!(f(m.gas_reserve_eth), 1.0);
    update_ipc_latency(&mut m, d(3.5));
    assert_eq!(f(m.node_ipc_latency), 3.5);
}
