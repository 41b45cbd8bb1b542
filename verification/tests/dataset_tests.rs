use cranium_rs::dataset::{
    create_batches, create_dataset, shuffle_together, split_rows, swap_together, Batch,
};

#[test]
fn test_create_dataset() {
    let rows = 3;
    let cols = 2;
    let data: Vec<Vec<f32>> = vec![vec![1.0, 2.0], vec![3.0, 4.0], vec![5.0, 6.0]];
    let dataset = create_dataset(rows, cols, data.clone());

    assert_eq!(dataset.rows, rows);
    assert_eq!(dataset.cols, cols);
    assert_eq!(*dataset.data, data);
}

#[test]
fn test_create_batches() {
    let rows = 10;
    let cols = 2;
    let data: Vec<Vec<f32>> = vec![vec![0.0; cols]; rows];
    let dataset = create_dataset(rows, cols, data.clone());

    let num_batches = 3;
    let batches = create_batches(&dataset, num_batches);

    assert_eq!(batches.len(), num_batches);
    assert_eq!(batches.iter().map(|b| b.size).sum::<usize>(), rows);
}

#[test]
fn test_split_rows() {
    let rows = 5;
    let cols = 2;
    let data: Vec<Vec<f32>> = vec![vec![0.0; cols]; rows];
    let dataset = create_dataset(rows, cols, data.clone());
    let batch = Batch { size: rows, offset: 0, dataset: &dataset };

    let split = split_rows(&batch);
    assert_eq!(split.len(), rows);
}

#[test]
fn test_shuffle_together() {
    let rows = 3;
    let cols = 2;
    let data_a: Vec<Vec<f32>> = vec![vec![0.0, 3.0], vec![1.0, 4.0], vec![2.0, 5.0]];
    let data_b: Vec<Vec<f32>> = vec![vec![6.0, 7.0], vec![8.0, 9.0], vec![10.0, 11.0]];

    let mut dataset_a = create_dataset(rows, cols, data_a.clone());
    let mut dataset_b = create_dataset(rows, cols, data_b.clone());

    // A random order may be the one the rows already have: shuffle again then.
    let mut attempts = 0;
    shuffle_together(&mut dataset_a, &mut dataset_b);
    while dataset_a.data == data_a && attempts < 200 {
        shuffle_together(&mut dataset_a, &mut dataset_b);
        attempts += 1;
    }

    assert_ne!(dataset_a.data, data_a);
    assert_ne!(dataset_b.data, data_b);

    // Check if the elements in both datasets are shuffled in the same way
    let shuffled_data_b = dataset_b.data.clone();
    let shuffled_data_a = dataset_a.data.clone();

    let mut permutation: Vec<usize> = vec![0; rows];
    for i in 0..rows {
        permutation[i] = shuffled_data_a[i][0] as usize;
    }

    let mut reconstruction = vec![vec![0.0; cols]; rows];
    for z in 0..rows {
        for i in 0..rows {
            if permutation[i] == z {
                reconstruction[z][0] = shuffled_data_b[i][0];
                reconstruction[z][1] = shuffled_data_b[i][1];
                break;
            }
        }
    }
    assert_eq!(reconstruction, data_b);
}

#[test]
fn batches_follow_the_distribution_rule() {
    let dataset = create_dataset(10, 1, vec![vec![0.0f32]; 10]);
    let batches = create_batches(&dataset, 3);
    let sizes: Vec<usize> = batches.iter().map(|b| b.size).collect();
    let offsets: Vec<usize> = batches.iter().map(|b| b.offset).collect();
    assert_eq!(sizes, vec![4, 3, 3]);
    assert_eq!(offsets, vec![0, 4, 7]);
}

#[test]
fn more_batches_than_rows_leaves_empty_batches() {
    let dataset = create_dataset(2, 1, vec![vec![0.0f32]; 2]);
    let batches = create_batches(&dataset, 5);
    let sizes: Vec<usize> = batches.iter().map(|b| b.size).collect();
    let offsets: Vec<usize> = batches.iter().map(|b| b.offset).collect();
    assert_eq!(sizes, vec![1, 1, 0, 0, 0]);
    assert_eq!(offsets, vec![0, 1, 2, 2, 2]);
}

#[test]
fn batch_sizes_add_up_and_stay_within_one() {
    for rows in 0..40usize {
        let dataset = create_dataset(rows, 1, vec![vec![0.0f32]; rows]);
        for num_batches in 1..12usize {
            let batches = create_batches(&dataset, num_batches);
            assert_eq!(batches.len(), num_batches);
            let total: usize = batches.iter().map(|b| b.size).sum();
            assert_eq!(total, rows);
            let largest = batches.iter().map(|b| b.size).max().unwrap();
            let smallest = batches.iter().map(|b| b.size).min().unwrap();
            assert!(largest - smallest <= 1);
            let mut next = 0;
            for batch in batches.iter() {
                assert_eq!(batch.offset, next);
                next += batch.size;
            }
        }
    }
}

#[test]
fn split_rows_numbers_the_rows_of_the_batch() {
    let dataset = create_dataset(6, 1, vec![vec![0.0f32]; 6]);
    let batch = Batch { offset: 2, size: 3, dataset: &dataset };
    let rows = split_rows(&batch);
    let indices: Vec<usize> = rows.iter().map(|r| r.row_idx).collect();
    assert_eq!(indices, vec![0, 1, 2]);
    assert!(rows.iter().all(|r| r.batch.offset == 2 && r.batch.size == 3));
}

#[test]
fn shuffle_keeps_facing_rows_together() {
    let rows = 50;
    let ids: Vec<Vec<f32>> = (0..rows).map(|i| vec![i as f32, 0.5]).collect();
    let tags: Vec<Vec<f32>> = (0..rows).map(|i| vec![i as f32]).collect();
    let mut a = create_dataset(rows, 2, ids);
    let mut b = create_dataset(rows, 1, tags);
    for _ in 0..10 {
        shuffle_together(&mut a, &mut b);
        assert_eq!(a.rows, rows);
        assert_eq!(b.rows, rows);
        assert_eq!(a.cols, 2);
        assert_eq!(b.cols, 1);
        let mut seen = vec![false; rows];
        for i in 0..rows {
            assert_eq!(a.data[i][0], b.data[i][0]);
            assert_eq!(a.data[i].len(), 2);
            assert_eq!(b.data[i].len(), 1);
            let id = a.data[i][0] as usize;
            assert!(!seen[id]);
            seen[id] = true;
        }
    }
}

#[test]
fn shuffle_gives_more_than_one_order() {
    let rows = 30;
    let mut orders: Vec<Vec<Vec<f32>>> = Vec::new();
    for _ in 0..8 {
        let mut a = create_dataset(rows, 1, (0..rows).map(|i| vec![i as f32]).collect());
        let mut b = create_dataset(rows, 1, (0..rows).map(|i| vec![i as f32]).collect());
        shuffle_together(&mut a, &mut b);
        orders.push(a.data.clone());
    }
    assert!(orders.iter().any(|order| *order != orders[0]));
}

#[test]
fn shuffle_of_empty_tables_does_nothing() {
    let mut a = create_dataset(0, 3, Vec::<Vec<f32>>::new());
    let mut b = create_dataset(0, 1, Vec::<Vec<f32>>::new());
    shuffle_together(&mut a, &mut b);
    assert_eq!(a.rows, 0);
    assert!(a.data.is_empty());
    assert!(b.data.is_empty());
}

#[test]
fn swap_together_follows_the_targets() {
    let mut a = create_dataset(3, 1, vec![vec![10.0f32], vec![20.0], vec![30.0]]);
    let mut b = create_dataset(3, 2, vec![vec![1.0f32, 1.5], vec![2.0, 2.5], vec![3.0, 3.5]]);
    // rows 0 and 1, then rows 1 and 2, then rows 2 and 0
    swap_together(&mut a, &mut b, &vec![1, 2, 0]);
    assert_eq!(a.data, vec![vec![10.0], vec![30.0], vec![20.0]]);
    assert_eq!(b.data, vec![vec![1.0, 1.5], vec![3.0, 3.5], vec![2.0, 2.5]]);
    assert_eq!(a.rows, 3);
    assert_eq!(b.cols, 2);
}

#[test]
fn swap_together_with_own_places_changes_nothing() {
    let mut a = create_dataset(3, 1, vec![vec![10.0f32], vec![20.0], vec![30.0]]);
    let mut b = create_dataset(3, 1, vec![vec![1.0f32], vec![2.0], vec![3.0]]);
    swap_together(&mut a, &mut b, &vec![0, 1, 2]);
    assert_eq!(a.data, vec![vec![10.0], vec![20.0], vec![30.0]]);
    assert_eq!(b.data, vec![vec![1.0], vec![2.0], vec![3.0]]);
}
