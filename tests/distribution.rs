use gravity_pool::attractors::attractor_indices;
use gravity_pool::chunking::chunk_ids;
use gravity_pool::error::ProtocolError;
use gravity_pool::results::{forces_by_body, ResultSet, WorkDone};

fn done(body_index: usize, force: i64) -> WorkDone<i64> {
    WorkDone { body_index, force }
}

#[test]
fn chunks_keep_order_and_last_chunk_is_short() {
    let ids: Vec<usize> = vec![0, 1, 2, 3, 4];
    assert_eq!(chunk_ids(&ids, 2), vec![vec![0, 1], vec![2, 3], vec![4]]);
}

#[test]
fn chunk_size_one_gives_one_chunk_per_body() {
    let ids: Vec<usize> = vec![3, 1, 2];
    assert_eq!(chunk_ids(&ids, 1), vec![vec![3], vec![1], vec![2]]);
}

#[test]
fn chunk_size_of_body_count_gives_one_chunk() {
    let ids: Vec<usize> = vec![0, 1, 2, 3];
    assert_eq!(chunk_ids(&ids, 4), vec![vec![0, 1, 2, 3]]);
    assert_eq!(chunk_ids(&ids, 10), vec![vec![0, 1, 2, 3]]);
}

#[test]
fn no_bodies_give_no_chunks() {
    let ids: Vec<usize> = vec![];
    assert!(chunk_ids(&ids, 3).is_empty());
}

#[test]
fn every_chunk_size_covers_each_body_once() {
    let ids: Vec<usize> = (0..7).collect();
    for size in 1..=8 {
        let chunks = chunk_ids(&ids, size);
        let joined: Vec<usize> = chunks.iter().flatten().copied().collect();
        assert_eq!(joined, ids);
        assert!(chunks.iter().all(|c| !c.is_empty() && c.len() <= size));
        let work: Vec<WorkDone<i64>> = joined.iter().map(|&i| done(i, i as i64 * 10)).collect();
        assert_eq!(forces_by_body(7, &work), Ok(vec![0, 10, 20, 30, 40, 50, 60]));
    }
}

#[test]
fn forces_come_back_in_body_order() {
    let work = vec![done(2, 30), done(0, 10), done(1, 20)];
    assert_eq!(forces_by_body(3, &work), Ok(vec![10, 20, 30]));
}

#[test]
fn empty_store_needs_no_results() {
    let work: Vec<WorkDone<i64>> = vec![];
    assert_eq!(forces_by_body(0, &work), Ok(vec![]));
}

#[test]
fn duplicate_result_is_refused() {
    let work = vec![done(0, 1), done(1, 2), done(0, 3)];
    assert_eq!(forces_by_body(2, &work), Err(ProtocolError::DuplicateResult(0)));
}

#[test]
fn unknown_body_is_refused() {
    let work = vec![done(0, 1), done(5, 2), done(1, 3)];
    assert_eq!(forces_by_body(2, &work), Err(ProtocolError::UnknownBody(5)));
}

#[test]
fn first_wrong_entry_decides_the_error() {
    let work = vec![done(1, 1), done(1, 2), done(9, 3)];
    assert_eq!(forces_by_body(2, &work), Err(ProtocolError::DuplicateResult(1)));
}

#[test]
fn missing_result_names_first_missing_body() {
    let work = vec![done(3, 1), done(0, 2)];
    assert_eq!(forces_by_body(4, &work), Err(ProtocolError::IncompleteResultSet(1)));
}

#[test]
fn result_set_fills_across_batches_in_any_order() {
    let mut set: ResultSet<i64> = ResultSet::new(4);
    assert_eq!(set.body_count(), 4);
    assert!(!set.is_complete());
    assert_eq!(set.receive(&vec![done(2, 7), done(3, 8)]), Ok(()));
    assert_eq!(set.received(), 2);
    assert_eq!(set.forces(), Err(ProtocolError::IncompleteResultSet(0)));
    assert_eq!(set.receive(&vec![done(1, 6)]), Ok(()));
    assert!(!set.is_complete());
    assert_eq!(set.receive(&vec![done(0, 5)]), Ok(()));
    assert!(set.is_complete());
    assert_eq!(set.forces(), Ok(vec![5, 6, 7, 8]));
}

#[test]
fn refused_batch_changes_nothing() {
    let mut set: ResultSet<i64> = ResultSet::new(3);
    assert_eq!(set.receive(&vec![done(1, 6)]), Ok(()));
    assert_eq!(set.receive(&vec![done(0, 5), done(1, 9)]), Err(ProtocolError::DuplicateResult(1)));
    assert_eq!(set.received(), 1);
    assert_eq!(set.receive(&vec![done(2, 1), done(2, 2)]), Err(ProtocolError::DuplicateResult(2)));
    assert_eq!(set.receive(&vec![done(3, 1)]), Err(ProtocolError::UnknownBody(3)));
    assert_eq!(set.received(), 1);
    assert_eq!(set.receive(&vec![done(0, 5), done(2, 7)]), Ok(()));
    assert_eq!(set.forces(), Ok(vec![5, 6, 7]));
}

#[test]
fn chunk_size_does_not_change_the_forces() {
    let ids: Vec<usize> = (0..5).collect();
    let force_of = |i: usize| [i as f64 * 1.5, -(i as f64), 0.25];
    let mut per_body: Vec<WorkDone<[f64; 3]>> = Vec::new();
    for chunk in chunk_ids(&ids, 1).iter().rev() {
        for &i in chunk {
            per_body.push(WorkDone { body_index: i, force: force_of(i) });
        }
    }
    let mut all_at_once: Vec<WorkDone<[f64; 3]>> = Vec::new();
    for chunk in chunk_ids(&ids, ids.len()) {
        for &i in &chunk {
            all_at_once.push(WorkDone { body_index: i, force: force_of(i) });
        }
    }
    let a = forces_by_body(5, &per_body).unwrap();
    let b = forces_by_body(5, &all_at_once).unwrap();
    assert_eq!(a, b);
    assert_eq!(a[3], [4.5, -3.0, 0.25]);
}

#[test]
fn lone_body_has_no_attractor() {
    assert!(attractor_indices(&vec![0], 0).is_empty());
}

#[test]
fn attractors_exclude_by_identity() {
    let ids: Vec<usize> = vec![4, 7, 4, 9];
    assert_eq!(attractor_indices(&ids, 4), vec![1, 3]);
    assert_eq!(attractor_indices(&ids, 7), vec![0, 2, 3]);
    assert_eq!(attractor_indices(&ids, 5), vec![0, 1, 2, 3]);
}
