use platypus::vectorize::{wants_vectors, VectorStep, Vectorizing};

#[test]
fn vectors_need_a_switch_and_a_key() {
    assert!(wants_vectors("true", "k"));
    assert!(!wants_vectors("true", ""));
    assert!(!wants_vectors("TRUE", "k"));
    assert!(!wants_vectors("", "k"));
}

#[test]
fn a_chunk_that_fails_is_passed_over() {
    let mut v = Vectorizing::new(3);
    let mut steps = vec![];
    for ok in [true, true, false, true, false, true] {
        steps.push(v.step());
        v.report(ok);
    }
    assert_eq!(
        steps,
        vec![
            VectorStep::Add(0),
            VectorStep::Mark(0),
            VectorStep::Add(1),
            VectorStep::Add(2),
            VectorStep::Mark(2),
            VectorStep::Sync,
        ]
    );
    assert_eq!(v.step(), VectorStep::Done);
    assert_eq!(v.vectorized(), 1);
    v.report(true);
    assert_eq!(v.step(), VectorStep::Done);
}

#[test]
fn without_chunks_there_is_nothing_to_do() {
    let v = Vectorizing::new(0);
    assert_eq!(v.step(), VectorStep::Done);
    assert_eq!(v.vectorized(), 0);
}
