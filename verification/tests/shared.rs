use cluster_pool::DataManager;

#[test]
fn manager_has_one_default_cell_per_worker() {
    let manager = DataManager::<(usize, usize)>::new(3);
    assert_eq!(manager.len(), 3);
    assert_eq!(manager.unlinked(0), (0, 0));
    assert_eq!(manager.unlinked(1), (0, 0));
    assert_eq!(manager.unlinked(2), (0, 0));
}

#[test]
fn manager_of_no_workers_is_empty() {
    let manager = DataManager::<bool>::new(0);
    assert_eq!(manager.len(), 0);
}

#[test]
fn write_changes_one_cell_only() {
    let mut manager = DataManager::<u32>::new(3);
    manager.write(1, |d| *d += 5);
    manager.write(1, |d| *d += 5);
    assert_eq!(manager.unlinked(0), 0);
    assert_eq!(manager.unlinked(1), 10);
    assert_eq!(manager.unlinked(2), 0);
    assert_eq!(manager.len(), 3);
}

#[test]
fn catch_folds_a_value_into_a_cell() {
    let mut manager = DataManager::<(usize, u64)>::new(2);
    let elapsed: u64 = 25;
    manager.catch(0, &elapsed, |v, d| {
        d.0 += 1;
        d.1 += *v;
    });
    manager.catch(0, &elapsed, |v, d| {
        d.0 += 1;
        d.1 += *v;
    });
    assert_eq!(manager.unlinked(0), (2, 50));
    assert_eq!(manager.unlinked(1), (0, 0));
}

#[test]
fn catch_mut_lets_the_handler_write_both() {
    let mut manager = DataManager::<u32>::new(1);
    manager.write(0, |d| *d = 4);
    let mut taken: u32 = 1;
    manager.catch_mut(0, &mut taken, |v, d| {
        std::mem::swap(v, d);
    });
    assert_eq!(taken, 4);
    assert_eq!(manager.unlinked(0), 1);
}

#[test]
fn unlinked_copy_is_cut_loose() {
    let mut manager = DataManager::<Vec<u8>>::new(1);
    manager.write(0, |d| d.push(1));
    let mut copy = manager.unlinked(0);
    copy.push(2);
    assert_eq!(copy, vec![1, 2]);
    assert_eq!(manager.unlinked(0), vec![1]);
}

#[test]
fn clones_share_their_cells() {
    let mut manager = DataManager::<u32>::new(2);
    let mut other = manager.clone();
    manager.write(0, |d| *d = 8);
    other.write(1, |d| *d = 9);
    assert_eq!(other.unlinked(0), 8);
    assert_eq!(manager.unlinked(1), 9);
    assert_eq!(other.len(), 2);
}

#[test]
fn shared_cell_sums_the_updates_of_all_workers() {
    let manager = DataManager::<(usize, usize)>::new(3);
    let mut workers = vec![manager.clone(), manager.clone(), manager.clone()];
    for round in 0..30usize {
        let id = round % 7 % 3;
        workers[id].write(id, |d| d.0 += 1);
        workers[id].write(0, |d| d.1 += 1);
    }
    let total = manager.unlinked(0).1;
    let own = manager.unlinked(0).0 + manager.unlinked(1).0 + manager.unlinked(2).0;
    assert_eq!(total, 30);
    assert_eq!(total, own);
}

#[derive(Debug, Default)]
struct Tally {
    copies: u32,
}

impl Clone for Tally {
    fn clone(&self) -> Self {
        Tally { copies: self.copies + 1 }
    }
}

#[test]
fn unlinked_returns_what_clone_makes_of_the_cell() {
    let mut manager = DataManager::<Tally>::new(2);
    assert_eq!(manager.unlinked(0).copies, 1);
    assert_eq!(manager.unlinked(0).copies, 1);
    manager.write(0, |d| d.copies = 10);
    assert_eq!(manager.unlinked(0).copies, 11);
    assert_eq!(manager.unlinked(1).copies, 1);
}
