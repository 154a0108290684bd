use ui0::preview::{after_bind, first_port, last_port, BindOutcome, PortStep};

#[test]
fn ports_of_the_range() {
    assert_eq!(first_port(), 1703);
    assert_eq!(last_port(), 1998);
}

#[test]
fn a_bound_port_is_served() {
    assert_eq!(after_bind(1703, BindOutcome::Bound), PortStep::Serve);
    assert_eq!(after_bind(1998, BindOutcome::Bound), PortStep::Serve);
}

#[test]
fn a_port_in_use_leads_to_the_next() {
    assert_eq!(after_bind(1703, BindOutcome::InUse), PortStep::Next(1704));
    assert_eq!(after_bind(1850, BindOutcome::InUse), PortStep::Next(1851));
    assert_eq!(after_bind(1997, BindOutcome::InUse), PortStep::Next(1998));
}

#[test]
fn the_search_ends_with_the_range() {
    assert_eq!(after_bind(1998, BindOutcome::InUse), PortStep::GiveUp);
}

#[test]
fn any_other_failure_ends_the_search() {
    assert_eq!(after_bind(1703, BindOutcome::Failed), PortStep::GiveUp);
    assert_eq!(after_bind(1998, BindOutcome::Failed), PortStep::GiveUp);
}

#[test]
fn every_port_of_the_range_is_tried_once() {
    let mut port = first_port();
    let mut tried = vec![port];
    while let PortStep::Next(next) = after_bind(port, BindOutcome::InUse) {
        port = next;
        tried.push(port);
    }
    let all: Vec<u16> = (1703..=1998).collect();
    assert_eq!(tried, all);
}
