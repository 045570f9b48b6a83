use compartments::engine::{Bucket, Diffusion, Infection, Model, SimError};
use compartments::rate::Rate;

#[test]
fn diffusion_moves_rounded_share() {
    let mut model = Model::new();
    let source = Bucket::new(&mut model, "source");
    let target = Bucket::new(&mut model, "target");
    source.add(&mut model, Diffusion::new(target, Rate::new(1, 100)));
    source.increase(&mut model, 1000);
    model.add(source);
    model.add(target);

    assert!(model.advance_all(1).is_ok());
    assert_eq!(source.get(&model), 990);
    assert_eq!(target.get(&model), 10);
}

#[test]
fn buckets_run_in_insertion_order() {
    // A feeds B and B feeds C; B's behaviour must see the quantity A just
    // moved in, so after one sweep the split is 4/2/2, not 4/4/0.
    let mut model = Model::new();
    let a = Bucket::new(&mut model, "A");
    let b = Bucket::new(&mut model, "B");
    let c = Bucket::new(&mut model, "C");
    a.add(&mut model, Diffusion::new(b, Rate::new(1, 2)));
    b.add(&mut model, Diffusion::new(c, Rate::new(1, 2)));
    a.increase(&mut model, 8);
    model.add(a);
    model.add(b);
    model.add(c);

    assert!(model.advance_all(1).is_ok());
    assert_eq!(a.get(&model), 4);
    assert_eq!(b.get(&model), 2);
    assert_eq!(c.get(&model), 2);
}

#[test]
fn behaviours_run_in_attachment_order() {
    // Both behaviours halve the source; the second sees what the first left.
    let mut model = Model::new();
    let a = Bucket::new(&mut model, "A");
    let b = Bucket::new(&mut model, "B");
    let c = Bucket::new(&mut model, "C");
    a.add(&mut model, Diffusion::new(b, Rate::new(1, 2)));
    a.add(&mut model, Diffusion::new(c, Rate::new(1, 2)));
    a.increase(&mut model, 100);
    model.add(a);
    model.add(b);
    model.add(c);

    assert!(model.advance_all(1).is_ok());
    assert_eq!(a.get(&model), 25);
    assert_eq!(b.get(&model), 50);
    assert_eq!(c.get(&model), 25);
}

#[test]
fn move_that_would_empty_the_source_is_skipped() {
    // The guard is strict: a move leaving exactly zero must not happen.
    let mut model = Model::new();
    let a = Bucket::new(&mut model, "A");
    let b = Bucket::new(&mut model, "B");
    a.add(&mut model, Diffusion::new(b, Rate::new(1, 1)));
    a.increase(&mut model, 5);
    model.add(a);
    model.add(b);

    assert!(model.advance_all(1).is_ok());
    assert_eq!(a.get(&model), 5);
    assert_eq!(b.get(&model), 0);
}

#[test]
fn move_leaving_a_positive_remainder_happens() {
    let mut model = Model::new();
    let a = Bucket::new(&mut model, "A");
    let b = Bucket::new(&mut model, "B");
    a.add(&mut model, Diffusion::new(b, Rate::new(2, 5)));
    a.increase(&mut model, 5);
    model.add(a);
    model.add(b);

    assert!(model.advance_all(1).is_ok());
    assert_eq!(a.get(&model), 3);
    assert_eq!(b.get(&model), 2);
}

#[test]
fn diffusion_conserves_total_quantity() {
    let mut model = Model::new();
    let a = Bucket::new(&mut model, "A");
    let b = Bucket::new(&mut model, "B");
    a.add(&mut model, Diffusion::new(b, Rate::new(1, 4)));
    b.add(&mut model, Diffusion::new(a, Rate::new(1, 10)));
    a.increase(&mut model, 100);
    b.increase(&mut model, 50);
    model.add(a);
    model.add(b);

    for _ in 0..25 {
        assert!(model.advance_all(1).is_ok());
        assert_eq!(a.get(&model) + b.get(&model), 150);
    }
}

#[test]
fn sir_scenario_first_tick() {
    let mut model = Model::new();
    let susceptible = Bucket::new(&mut model, "Susceptible");
    let infected = Bucket::new(&mut model, "Infected");
    let recovered = Bucket::new(&mut model, "Recovered");
    susceptible.add(&mut model, Infection::new(infected, Rate::new(1, 100)));
    infected.add(&mut model, Diffusion::new(recovered, Rate::new(1, 5)));
    susceptible.increase(&mut model, 1000);
    infected.increase(&mut model, 1);
    model.add(susceptible);
    model.add(infected);
    model.add(recovered);

    assert!(model.advance_all(1).is_ok());
    // The infection term reads the target: round(0.01 * 1) = 0 moved, and
    // the recovery term reads its source: round(0.2 * 1) = 0 moved.
    assert_eq!(susceptible.get(&model), 1000);
    assert_eq!(infected.get(&model), 1);
    assert_eq!(recovered.get(&model), 0);
}

#[test]
fn infection_computes_from_target_quantity() {
    let mut model = Model::new();
    let source = Bucket::new(&mut model, "source");
    let target = Bucket::new(&mut model, "target");
    source.add(&mut model, Infection::new(target, Rate::new(1, 10)));
    source.increase(&mut model, 10);
    target.increase(&mut model, 100);
    model.add(source);
    model.add(target);

    // round(0.1 * 100) = 10 moves out of the source, which may reach zero:
    // only the target's quantity is guarded.
    assert!(model.advance_all(1).is_ok());
    assert_eq!(source.get(&model), 0);
    assert_eq!(target.get(&model), 110);
}

#[test]
fn infection_underflow_is_reported_not_committed() {
    let mut model = Model::new();
    let source = Bucket::new(&mut model, "source");
    let target = Bucket::new(&mut model, "target");
    source.add(&mut model, Infection::new(target, Rate::new(1, 2)));
    source.increase(&mut model, 1);
    target.increase(&mut model, 1000);
    model.add(source);
    model.add(target);

    // round(0.5 * 1000) = 500 cannot leave a source holding 1.
    assert_eq!(model.advance_all(1), Err(SimError::Underflow));
    assert_eq!(source.get(&model), 1);
    assert_eq!(target.get(&model), 1000);
}

#[test]
fn overflow_is_reported_not_committed() {
    let mut model = Model::new();
    let a = Bucket::new(&mut model, "A");
    let b = Bucket::new(&mut model, "B");
    b.add(&mut model, Diffusion::new(a, Rate::new(1, 2)));
    a.increase(&mut model, u64::MAX);
    b.increase(&mut model, u64::MAX);
    model.add(a);
    model.add(b);

    assert_eq!(model.advance_all(1), Err(SimError::Overflow));
    assert_eq!(a.get(&model), u64::MAX);
    assert_eq!(b.get(&model), u64::MAX);
}

#[test]
fn error_keeps_everything_moved_before_it() {
    // The first bucket's move commits; the second bucket's move fails.
    let mut model = Model::new();
    let a = Bucket::new(&mut model, "A");
    let b = Bucket::new(&mut model, "B");
    let poor = Bucket::new(&mut model, "poor");
    let rich = Bucket::new(&mut model, "rich");
    a.add(&mut model, Diffusion::new(b, Rate::new(1, 2)));
    poor.add(&mut model, Infection::new(rich, Rate::new(1, 2)));
    a.increase(&mut model, 100);
    poor.increase(&mut model, 1);
    rich.increase(&mut model, 1000);
    model.add(a);
    model.add(poor);

    assert_eq!(model.advance_all(1), Err(SimError::Underflow));
    assert_eq!(a.get(&model), 50);
    assert_eq!(b.get(&model), 50);
    assert_eq!(poor.get(&model), 1);
    assert_eq!(rich.get(&model), 1000);
}

#[test]
fn bucket_as_its_own_target_is_unchanged() {
    let mut model = Model::new();
    let a = Bucket::new(&mut model, "A");
    a.add(&mut model, Diffusion::new(a, Rate::new(1, 2)));
    a.increase(&mut model, 8);
    model.add(a);

    assert!(model.advance_all(1).is_ok());
    assert_eq!(a.get(&model), 8);
}

#[test]
fn same_bucket_added_twice_runs_twice() {
    let mut model = Model::new();
    let a = Bucket::new(&mut model, "A");
    let b = Bucket::new(&mut model, "B");
    a.add(&mut model, Diffusion::new(b, Rate::new(1, 2)));
    a.increase(&mut model, 100);
    model.add(a);
    model.add(a);
    model.add(b);

    assert!(model.advance_all(1).is_ok());
    assert_eq!(a.get(&model), 25);
    assert_eq!(b.get(&model), 75);
}

#[test]
fn elapsed_ticks_scale_the_move() {
    let mut model = Model::new();
    let a = Bucket::new(&mut model, "A");
    let b = Bucket::new(&mut model, "B");
    a.add(&mut model, Diffusion::new(b, Rate::new(1, 100)));
    a.increase(&mut model, 1000);
    model.add(a);
    model.add(b);

    // One sweep with three elapsed ticks moves round(0.01 * 1000) * 3.
    assert!(model.advance_all(3).is_ok());
    assert_eq!(a.get(&model), 970);
    assert_eq!(b.get(&model), 30);
}

#[test]
fn update_runs_one_buckets_behaviours_only() {
    let mut model = Model::new();
    let a = Bucket::new(&mut model, "A");
    let b = Bucket::new(&mut model, "B");
    a.add(&mut model, Diffusion::new(b, Rate::new(1, 2)));
    b.add(&mut model, Diffusion::new(a, Rate::new(1, 2)));
    a.increase(&mut model, 100);
    b.increase(&mut model, 100);
    model.add(a);
    model.add(b);

    assert!(a.update(&mut model, 1).is_ok());
    assert_eq!(a.get(&model), 50);
    assert_eq!(b.get(&model), 150);
}

#[test]
fn names_and_snapshot_follow_insertion_order() {
    let mut model = Model::new();
    let a = Bucket::new(&mut model, "first");
    let b = Bucket::new(&mut model, "second");
    a.increase(&mut model, 7);
    b.increase(&mut model, 9);
    model.add(b);
    model.add(a);

    let names = model.names();
    assert_eq!(names, vec!["second".to_string(), "first".to_string()]);
    let snapshot = model.snapshot();
    assert_eq!(snapshot, vec![9, 7]);
    assert_eq!(model.bucket_count(), 2);
}

#[test]
fn renaming_changes_nothing_else() {
    let mut model = Model::new();
    let a = Bucket::new(&mut model, "old");
    a.increase(&mut model, 3);
    assert_eq!(a.name(&model), "old".to_string());
    a.set_name(&mut model, "new");
    assert_eq!(a.name(&model), "new".to_string());
    assert_eq!(a.get(&model), 3);

    let b = Bucket::new(&mut model, "plain").with_name(&mut model, "chained");
    assert_eq!(b.name(&model), "chained".to_string());
}

#[test]
fn empty_model_advances_trivially() {
    let mut model = Model::new();
    assert!(model.advance_all(5).is_ok());
    assert_eq!(model.bucket_count(), 0);
    assert!(model.names().is_empty());
    assert!(model.snapshot().is_empty());
}

#[test]
fn bucket_not_added_to_the_order_does_not_run() {
    let mut model = Model::new();
    let a = Bucket::new(&mut model, "A");
    let b = Bucket::new(&mut model, "B");
    a.add(&mut model, Diffusion::new(b, Rate::new(1, 2)));
    a.increase(&mut model, 100);
    model.add(b);

    assert!(model.advance_all(1).is_ok());
    assert_eq!(a.get(&model), 100);
    assert_eq!(b.get(&model), 0);
}

#[test]
fn zero_elapsed_ticks_move_nothing() {
    let mut model = Model::new();
    let a = Bucket::new(&mut model, "A");
    let b = Bucket::new(&mut model, "B");
    a.add(&mut model, Diffusion::new(b, Rate::new(1, 2)));
    a.increase(&mut model, 100);
    model.add(a);
    model.add(b);

    assert!(model.advance_all(0).is_ok());
    assert_eq!(a.get(&model), 100);
    assert_eq!(b.get(&model), 0);
}

#[test]
fn increase_and_decrease_adjust_quantity() {
    let mut model = Model::new();
    let a = Bucket::new(&mut model, "A");
    assert_eq!(a.get(&model), 0);
    a.increase(&mut model, 10);
    assert_eq!(a.get(&model), 10);
    a.decrease(&mut model, 4);
    assert_eq!(a.get(&model), 6);
}
