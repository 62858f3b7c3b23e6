use inodefs::directory::Directory;
use inodefs::error::FsError;
use inodefs::inode::{
    Inode, PERMISSION_EXECUTE, PERMISSION_EXECUTE_OTHER, PERMISSION_READ, PERMISSION_READ_OTHER,
    PERMISSION_WRITE, PERMISSION_WRITE_OTHER,
};
use inodefs::superblock::SuperBlock;

#[test]
fn inode_defaults_and_permissions() {
    let mut i = Inode::new(7);
    assert_eq!(i.inode_number, 7);
    assert_eq!(i.size, 0);
    assert_eq!(i.timestamp, 0);
    assert_eq!(
        i.permissions,
        PERMISSION_READ | PERMISSION_WRITE | PERMISSION_EXECUTE | PERMISSION_READ_OTHER
    );
    assert!(i.data_blocks.is_empty());
    i.set_permissions(PERMISSION_WRITE_OTHER | PERMISSION_EXECUTE_OTHER);
    assert_eq!(i.permissions, 0o003);
    assert_eq!(i.inode_number, 7);
}

#[test]
fn directory_add_lookup_remove() {
    let mut d = Directory::new();
    assert_eq!(d.lookup_file("a"), None);
    assert_eq!(d.add_file("a".to_string(), 3), Ok(()));
    assert_eq!(d.add_file("b".to_string(), 4), Ok(()));
    assert_eq!(d.add_file("a".to_string(), 5), Err(FsError::NameExists));
    assert_eq!(d.lookup_file("a"), Some(3));
    assert_eq!(d.find("b"), Some(1));
    assert_eq!(d.remove_file("a"), Ok(3));
    assert_eq!(d.remove_file("a"), Err(FsError::NameNotFound));
    assert_eq!(d.lookup_file("b"), Some(4));
    assert_eq!(d.find("b"), Some(0));
}

#[test]
fn superblock_allocates_from_front() {
    let mut sb = SuperBlock::new(2, 16, 4);
    assert_eq!(sb.free_blocks, vec![0, 1, 2, 3]);
    assert_eq!(sb.allocate_blocks(3), Ok(vec![0, 1, 2]));
    assert_eq!(sb.free_blocks, vec![3]);
    assert_eq!(sb.allocate_blocks(2), Err(FsError::OutOfSpace));
    assert_eq!(sb.free_blocks, vec![3]);
    assert_eq!(sb.allocate_blocks(0), Ok(vec![]));
}

#[test]
fn superblock_release_checks() {
    let mut sb = SuperBlock::new(2, 16, 4);
    sb.allocate_blocks(3).unwrap();
    assert_eq!(sb.release_blocks(vec![1, 9]), Err(FsError::InvalidIndex));
    assert_eq!(sb.release_blocks(vec![1, 3]), Err(FsError::DoubleFree));
    assert_eq!(sb.release_blocks(vec![1, 1]), Err(FsError::DoubleFree));
    assert_eq!(sb.free_blocks, vec![3]);
    assert_eq!(sb.release_blocks(vec![2, 0]), Ok(()));
    assert_eq!(sb.free_blocks, vec![3, 2, 0]);
}
