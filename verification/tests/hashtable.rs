use hashtable_shm::hashtable::Bucket;
use hashtable_shm::hashtable::Error;
use hashtable_shm::hashtable::HashTable;

#[test]
fn zero_bucket_table() {
    let table: Result<HashTable<u32, u32>, Error> = HashTable::new(0);
    assert!(table.is_err());
}

#[test]
fn zero_bucket_table_names_its_error() {
    let table: Result<HashTable<u32, u32>, Error> = HashTable::new(0);
    assert_eq!(table.err(), Some(Error::BucketSizeZero));
}

#[test]
fn add_read() {
    let mut table: HashTable<u32, u32> = HashTable::new(10).expect("could not create table");
    let res = table.add(24, 54);
    assert!(res.is_ok());
    assert_eq!(table.read(&24), Some(54));

    // Try to add to a key that already exists
    let res = table.add(24, 62);
    assert!(res.is_err());
    assert_eq!(table.read(&24), Some(54));
}

#[test]
fn single_bucket() {
    let mut table: HashTable<u32, u32> = HashTable::new(1).expect("could not create table");

    let res = table.add(1, 4);
    assert!(res.is_ok());

    let res = table.add(2, 5);
    assert!(res.is_ok());

    let res = table.add(3, 6);
    assert!(res.is_ok());

    let res = table.delete(&2);
    assert!(res.is_ok());

    assert_eq!(table.read(&1), Some(4));
    assert_eq!(table.read(&3), Some(6));
    assert_eq!(table.read(&2), None);

    let res = table.delete(&2);
    assert!(res.is_err());
}

#[test]
fn second_add_fails_with_key_exists() {
    let mut table: HashTable<u32, u32> = HashTable::new(4).expect("could not create table");
    assert_eq!(table.add(7, 70), Ok(()));
    assert_eq!(table.add(7, 71), Err(Error::KeyExists));
    assert_eq!(table.read(&7), Some(70));
}

#[test]
fn add_delete_read_is_absent() {
    let mut table: HashTable<u32, u32> = HashTable::new(4).expect("could not create table");
    assert_eq!(table.add(9, 90), Ok(()));
    assert_eq!(table.delete(&9), Ok(()));
    assert_eq!(table.read(&9), None);
}

#[test]
fn delete_of_absent_key_fails_with_key_missing() {
    let mut table: HashTable<u32, u32> = HashTable::new(4).expect("could not create table");
    assert_eq!(table.delete(&5), Err(Error::KeyMissing));
    assert_eq!(table.read(&5), None);
}

#[test]
fn read_of_empty_table_is_absent() {
    let table: HashTable<u32, u32> = HashTable::new(3).expect("could not create table");
    assert_eq!(table.read(&0), None);
    assert_eq!(table.read(&u32::MAX), None);
}

#[test]
fn hash_is_stable_and_in_range() {
    let table: HashTable<u32, u32> = HashTable::new(7).expect("could not create table");
    let mut seen_other = false;
    let first = table.hash(&0);
    for key in 0..200u32 {
        let pos = table.hash(&key);
        assert!(pos < 7);
        assert_eq!(pos, table.hash(&key));
        if pos != first {
            seen_other = true;
        }
    }
    // The hash depends on the key: 200 keys do not all share one bucket.
    assert!(seen_other);
}

#[test]
fn many_keys_round_trip() {
    let mut table: HashTable<u32, u32> = HashTable::new(5).expect("could not create table");
    for key in 0..100u32 {
        assert_eq!(table.add(key, key * 3), Ok(()));
    }
    for key in 0..100u32 {
        assert_eq!(table.read(&key), Some(key * 3));
    }
    for key in (0..100u32).filter(|k| k % 2 == 0) {
        assert_eq!(table.delete(&key), Ok(()));
    }
    for key in 0..100u32 {
        let expected = if key % 2 == 0 { None } else { Some(key * 3) };
        assert_eq!(table.read(&key), expected);
    }
}

#[test]
fn bucket_keeps_each_key_once() {
    let mut bucket: Bucket<u32, u32> = Bucket::new();
    assert_eq!(bucket.add(1, 10), Ok(()));
    assert_eq!(bucket.add(2, 20), Ok(()));
    assert_eq!(bucket.add(1, 11), Err(Error::KeyExists));
    assert_eq!(bucket.read(&1), Some(10));
    assert_eq!(bucket.delete(&1), Ok(()));
    assert_eq!(bucket.delete(&1), Err(Error::KeyMissing));
    assert_eq!(bucket.read(&1), None);
    assert_eq!(bucket.read(&2), Some(20));
}

#[test]
fn bucket_index_agrees_with_the_table() {
    let table: HashTable<u32, u32> = HashTable::new(13).expect("could not create table");
    for key in 0..50u32 {
        assert_eq!(hashtable_shm::hashtable::bucket_index(&key, 13), table.hash(&key));
    }
    assert_eq!(hashtable_shm::hashtable::bucket_index(&77, 1), 0);
}
