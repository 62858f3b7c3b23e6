use inodefs::error::FsError;
use inodefs::filesystem::{Filesystem, InodeSnapshot};
use inodefs::inode::{DEFAULT_PERMISSIONS, PERMISSION_READ, PERMISSION_WRITE};

fn owned_blocks(fs: &Filesystem, n: usize) -> Vec<usize> {
    fs.data_blocks(n).unwrap().clone()
}

#[test]
fn create_numbers_names_and_capacity() {
    let mut fs = Filesystem::new(2, 4, 3);
    assert_eq!(fs.create_file("a".to_string()), Ok(1));
    assert_eq!(fs.create_file("a".to_string()), Err(FsError::NameExists));
    assert_eq!(fs.create_file("b".to_string()), Ok(2));
    assert_eq!(fs.create_file("c".to_string()), Err(FsError::OutOfInodes));
}

#[test]
fn out_of_inodes_wins_over_taken_name() {
    let mut fs = Filesystem::new(1, 4, 3);
    assert_eq!(fs.create_file("a".to_string()), Ok(1));
    assert_eq!(fs.create_file("a".to_string()), Err(FsError::OutOfInodes));
}

#[test]
fn zero_inode_capacity() {
    let mut fs = Filesystem::new(0, 4, 3);
    assert_eq!(fs.create_file("a".to_string()), Err(FsError::OutOfInodes));
    assert_eq!(fs.lookup("a"), None);
}

#[test]
fn write_reserves_ceiling_and_shrinks() {
    let mut fs = Filesystem::new(2, 4, 3);
    assert_eq!(fs.create_file("a".to_string()), Ok(1));
    assert_eq!(fs.write_data(1, 10), Ok(()));
    let st = fs.stat(1).unwrap();
    assert_eq!(st.size, 10);
    assert_eq!(st.block_count, 3);
    assert_eq!(owned_blocks(&fs, 1), vec![0, 1, 2]);
    assert_eq!(fs.superblock().free_blocks.len(), 0);
    assert_eq!(fs.write_data(1, 4), Ok(()));
    let st = fs.stat(1).unwrap();
    assert_eq!(st.size, 4);
    assert_eq!(st.block_count, 1);
    assert!(st.block_count as u64 <= (st.size + 3) / 4);
    assert_eq!(owned_blocks(&fs, 1), vec![0]);
    assert_eq!(fs.superblock().free_blocks, vec![1, 2]);
}

#[test]
fn write_exact_multiple_and_zero() {
    let mut fs = Filesystem::new(2, 4, 5);
    assert_eq!(fs.create_file("a".to_string()), Ok(1));
    assert_eq!(fs.write_data(1, 8), Ok(()));
    assert_eq!(fs.stat(1).unwrap().block_count, 2);
    assert_eq!(fs.write_data(1, 9), Ok(()));
    assert_eq!(fs.stat(1).unwrap().block_count, 3);
    assert_eq!(fs.write_data(1, 0), Ok(()));
    assert_eq!(fs.stat(1).unwrap().block_count, 0);
    assert_eq!(fs.superblock().free_blocks.len(), 5);
}

#[test]
fn exhausted_pool_leaves_second_inode_empty() {
    let mut fs = Filesystem::new(2, 4, 3);
    assert_eq!(fs.create_file("a".to_string()), Ok(1));
    assert_eq!(fs.create_file("b".to_string()), Ok(2));
    assert_eq!(fs.write_data(1, 12), Ok(()));
    assert_eq!(fs.superblock().free_blocks.len(), 0);
    assert_eq!(fs.write_data(2, 1), Err(FsError::OutOfSpace));
    let st = fs.stat(2).unwrap();
    assert_eq!(st.block_count, 0);
    assert_eq!(st.size, 0);
    assert_eq!(st.timestamp, 0);
    assert!(owned_blocks(&fs, 2).is_empty());
}

#[test]
fn write_unknown_inode() {
    let mut fs = Filesystem::new(2, 4, 3);
    assert_eq!(fs.write_data(7, 1), Err(FsError::NotFound));
    assert_eq!(fs.stat(7), None);
}

#[test]
fn write_huge_size_is_out_of_space() {
    let mut fs = Filesystem::new(1, 1, 2);
    assert_eq!(fs.create_file("a".to_string()), Ok(1));
    assert_eq!(fs.write_data(1, u64::MAX), Err(FsError::OutOfSpace));
    assert_eq!(fs.stat(1).unwrap().block_count, 0);
}

#[test]
fn capacity_counts_hold() {
    let mut fs = Filesystem::new(3, 2, 6);
    fs.create_file("a".to_string()).unwrap();
    fs.create_file("b".to_string()).unwrap();
    fs.write_data(1, 3).unwrap();
    fs.write_data(2, 5).unwrap();
    let sb = fs.superblock();
    assert_eq!(sb.free_inodes + sb.allocated_inodes.len(), sb.total_inodes);
    let owned = owned_blocks(&fs, 1).len() + owned_blocks(&fs, 2).len();
    assert_eq!(owned, 5);
    assert_eq!(sb.free_blocks.len() + owned, 6);
}

#[test]
fn blocks_never_shared() {
    let mut fs = Filesystem::new(3, 1, 6);
    fs.create_file("a".to_string()).unwrap();
    fs.create_file("b".to_string()).unwrap();
    fs.write_data(1, 2).unwrap();
    fs.write_data(2, 3).unwrap();
    fs.write_data(1, 1).unwrap();
    fs.write_data(2, 4).unwrap();
    let a = owned_blocks(&fs, 1);
    let b = owned_blocks(&fs, 2);
    let free = fs.superblock().free_blocks.clone();
    let mut all: Vec<usize> = a.iter().chain(b.iter()).chain(free.iter()).copied().collect();
    all.sort();
    assert_eq!(all, vec![0, 1, 2, 3, 4, 5]);
    assert_eq!(a, vec![0]);
    assert_eq!(b, vec![2, 3, 4, 5]);
    assert_eq!(free, vec![1]);
}

#[test]
fn numbers_never_reused() {
    let mut fs = Filesystem::new(2, 4, 3);
    assert_eq!(fs.create_file("a".to_string()), Ok(1));
    assert_eq!(fs.delete_file("a"), Ok(()));
    assert_eq!(fs.create_file("a".to_string()), Ok(2));
    assert_eq!(fs.create_file("b".to_string()), Ok(3));
    assert_eq!(fs.delete_file("a"), Ok(()));
    assert_eq!(fs.create_file("c".to_string()), Ok(4));
    assert_eq!(fs.stat(1), None);
    assert_eq!(fs.stat(2), None);
    assert_eq!(fs.lookup("b"), Some(3));
    assert_eq!(fs.lookup("c"), Some(4));
}

#[test]
fn taken_name_changes_nothing() {
    let mut fs = Filesystem::new(3, 4, 3);
    fs.create_file("a".to_string()).unwrap();
    let free_before = fs.superblock().free_inodes;
    let live_before = fs.superblock().allocated_inodes.clone();
    assert_eq!(fs.create_file("a".to_string()), Err(FsError::NameExists));
    assert_eq!(fs.superblock().free_inodes, free_before);
    assert_eq!(fs.superblock().allocated_inodes, live_before);
    assert_eq!(fs.lookup("a"), Some(1));
    assert_eq!(fs.create_file("b".to_string()), Ok(2));
}

#[test]
fn create_then_delete_restores_counters() {
    let mut fs = Filesystem::new(3, 4, 5);
    fs.create_file("x".to_string()).unwrap();
    fs.write_data(1, 5).unwrap();
    let free_inodes = fs.superblock().free_inodes;
    let live = fs.superblock().allocated_inodes.clone();
    let free_blocks = fs.superblock().free_blocks.clone();
    let n = fs.create_file("a".to_string()).unwrap();
    assert_eq!(n, 2);
    assert_eq!(fs.superblock().free_inodes, free_inodes - 1);
    assert_eq!(fs.delete_file("a"), Ok(()));
    assert_eq!(fs.superblock().free_inodes, free_inodes);
    assert_eq!(fs.superblock().allocated_inodes, live);
    assert_eq!(fs.superblock().free_blocks, free_blocks);
    assert_eq!(fs.lookup("a"), None);
}

#[test]
fn delete_releases_blocks_to_the_end() {
    let mut fs = Filesystem::new(2, 2, 4);
    fs.create_file("a".to_string()).unwrap();
    fs.write_data(1, 3).unwrap();
    assert_eq!(fs.superblock().free_blocks, vec![2, 3]);
    assert_eq!(fs.delete_file("a"), Ok(()));
    assert_eq!(fs.superblock().free_blocks, vec![2, 3, 0, 1]);
    assert_eq!(fs.superblock().free_inodes, 2);
    assert!(fs.superblock().allocated_inodes.is_empty());
}

#[test]
fn delete_missing_name() {
    let mut fs = Filesystem::new(2, 4, 3);
    fs.create_file("a".to_string()).unwrap();
    assert_eq!(fs.delete_file("b"), Err(FsError::NameNotFound));
    assert_eq!(fs.lookup("a"), Some(1));
    assert_eq!(fs.superblock().free_inodes, 1);
}

#[test]
fn permissions_and_timestamps() {
    let mut fs = Filesystem::new(2, 4, 3);
    fs.create_file("a".to_string()).unwrap();
    assert_eq!(
        fs.stat(1),
        Some(InodeSnapshot { size: 0, permissions: DEFAULT_PERMISSIONS, timestamp: 0, block_count: 0 })
    );
    assert_eq!(DEFAULT_PERMISSIONS, 0o704);
    assert_eq!(fs.set_permissions(1, PERMISSION_READ | PERMISSION_WRITE), Ok(()));
    let st = fs.stat(1).unwrap();
    assert_eq!(st.permissions, 0o600);
    assert_eq!(st.timestamp, 1);
    fs.write_data(1, 1).unwrap();
    assert_eq!(fs.stat(1).unwrap().timestamp, 2);
    assert_eq!(fs.stat(1).unwrap().permissions, 0o600);
    assert_eq!(fs.set_permissions(9, 0), Err(FsError::NotFound));
}

#[test]
fn new_filesystem_is_empty() {
    let fs = Filesystem::new(5, 512, 4);
    let sb = fs.superblock();
    assert_eq!(sb.total_inodes, 5);
    assert_eq!(sb.free_inodes, 5);
    assert_eq!(sb.block_size, 512);
    assert_eq!(sb.total_blocks, 4);
    assert_eq!(sb.free_blocks, vec![0, 1, 2, 3]);
    assert!(sb.allocated_inodes.is_empty());
    assert_eq!(fs.lookup("a"), None);
    assert!(fs.data_blocks(1).is_none());
}
