use demo_ls::diagnostics::partition::batches;
use demo_ls::handles::FileHandle;

fn partition_files(count: u32) -> Vec<FileHandle> {
    (0..count).map(|raw| FileHandle { raw: raw + 100 }).collect()
}

fn partition_raws(batch: &[FileHandle]) -> Vec<u32> {
    batch.iter().map(|f| f.raw).collect()
}

#[test]
fn seven_files_over_three_workers_go_round_robin() {
    let files = partition_files(7);
    let result = batches(&files, 3);
    assert_eq!(result.len(), 3);
    assert_eq!(partition_raws(&result[0]), vec![100, 103, 106]);
    assert_eq!(partition_raws(&result[1]), vec![101, 104]);
    assert_eq!(partition_raws(&result[2]), vec![102, 105]);
}

#[test]
fn one_worker_gets_everything_in_order() {
    let files = partition_files(5);
    let result = batches(&files, 1);
    assert_eq!(result.len(), 1);
    assert_eq!(partition_raws(&result[0]), vec![100, 101, 102, 103, 104]);
}

#[test]
fn more_workers_than_files_leaves_empty_batches() {
    let files = partition_files(2);
    let result = batches(&files, 4);
    assert_eq!(result.len(), 4);
    assert_eq!(partition_raws(&result[0]), vec![100]);
    assert_eq!(partition_raws(&result[1]), vec![101]);
    assert!(result[2].is_empty());
    assert!(result[3].is_empty());
}

#[test]
fn no_files_gives_as_many_empty_batches_as_workers() {
    let result = batches(&[], 3);
    assert_eq!(result.len(), 3);
    assert!(result.iter().all(|batch| batch.is_empty()));
}

#[test]
fn files_divisible_by_workers_give_equal_batches() {
    let files = partition_files(6);
    let result = batches(&files, 3);
    assert_eq!(partition_raws(&result[0]), vec![100, 103]);
    assert_eq!(partition_raws(&result[1]), vec![101, 104]);
    assert_eq!(partition_raws(&result[2]), vec![102, 105]);
}

#[test]
fn every_file_lands_in_exactly_one_batch() {
    for count in 0..40u32 {
        for workers in 1..9usize {
            let files = partition_files(count);
            let result = batches(&files, workers);
            assert_eq!(result.len(), workers);
            let mut seen: Vec<u32> = result.iter().flatten().map(|f| f.raw).collect();
            assert_eq!(seen.len(), count as usize);
            seen.sort();
            assert_eq!(seen, (100..100 + count).collect::<Vec<u32>>());
        }
    }
}

#[test]
fn batch_sizes_differ_by_at_most_one() {
    for count in 0..40u32 {
        for workers in 1..9usize {
            let files = partition_files(count);
            let result = batches(&files, workers);
            let largest = result.iter().map(|batch| batch.len()).max().unwrap();
            let smallest = result.iter().map(|batch| batch.len()).min().unwrap();
            assert!(largest - smallest <= 1);
        }
    }
}

#[test]
fn batch_holds_the_positions_congruent_to_its_index() {
    let files = partition_files(23);
    let workers = 5;
    let result = batches(&files, workers);
    for (index, batch) in result.iter().enumerate() {
        for (slot, file) in batch.iter().enumerate() {
            assert_eq!(*file, files[index + slot * workers]);
        }
    }
}

#[test]
fn partitioning_twice_gives_the_same_batches() {
    let files = partition_files(11);
    assert_eq!(batches(&files, 4), batches(&files, 4));
}
