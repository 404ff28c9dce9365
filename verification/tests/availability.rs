use class_capacity_truth::records::{availability_at, Availability};

#[test]
fn availability_closes_at_the_exact_cutoff_instant() {
    let cutoff = 1_900_000_000;
    assert_eq!(
        availability_at(8, 6, cutoff, cutoff - 1),
        Availability::Available
    );
    assert_eq!(availability_at(8, 6, cutoff, cutoff), Availability::Cutoff);
    assert_eq!(
        availability_at(8, 6, cutoff, cutoff + 1),
        Availability::Cutoff
    );
}

#[test]
fn full_capacity_takes_precedence_over_a_future_cutoff() {
    assert_eq!(
        availability_at(6, 6, 1_900_000_100, 1_900_000_000),
        Availability::Full
    );
}

#[test]
fn overfull_class_is_full_even_after_its_cutoff() {
    assert_eq!(availability_at(6, 7, 100, 200), Availability::Full);
    assert_eq!(availability_at(0, 0, 100, 50), Availability::Full);
}
