use jasn::Binary;
use std::collections::HashMap;

#[test]
fn test_binary_conversions() {
    // Binary from Vec<u8>
    let binary = Binary::from(vec![1u8, 2, 3]);
    assert_eq!(binary, Binary(vec![1, 2, 3]));

    // Binary from &[u8]
    let bytes: &[u8] = b"hello";
    let binary = Binary::from(bytes);
    assert_eq!(binary, Binary(b"hello".to_vec()));

    // Binary from byte literal &[u8; N]
    let binary = Binary::from(b"world");
    assert_eq!(binary, Binary(b"world".to_vec()));

    // Binary to Vec<u8>
    let binary = Binary(vec![1, 2, 3]);
    let vec: Vec<u8> = binary.clone().into();
    assert_eq!(vec, vec![1, 2, 3]);

    // Binary AsRef<[u8]>
    let binary = Binary(vec![4, 5, 6]);
    let slice: &[u8] = binary.as_ref();
    assert_eq!(slice, &[4, 5, 6]);

    // Binary Deref to [u8]
    let binary = Binary(vec![7, 8, 9]);
    assert_eq!(&*binary, &[7, 8, 9]);
    assert_eq!(binary.len(), 3);
    assert_eq!(binary[0], 7);

    // Binary AsMut<[u8]>
    let mut binary = Binary(vec![1, 2, 3]);
    let slice_mut: &mut [u8] = binary.as_mut();
    slice_mut[0] = 99;
    assert_eq!(binary.as_ref(), &[99, 2, 3]);

    // Binary DerefMut to [u8]
    let mut binary = Binary(vec![4, 5, 6]);
    binary[1] = 88;
    assert_eq!(&*binary, &[4, 88, 6]);

    // Binary from owned array [u8; N]
    let binary = Binary::from([1u8, 2, 3]);
    assert_eq!(binary, Binary(vec![1, 2, 3]));
}

#[test]
fn test_binary_construction() {
    // Binary::new()
    let binary = Binary::new();
    assert_eq!(binary.len(), 0);
    assert!(binary.is_empty());

    // Binary::with_capacity()
    let binary = Binary::with_capacity(10);
    assert_eq!(binary.len(), 0);
    assert!(binary.capacity() >= 10);

    // Binary::default()
    let binary = Binary::default();
    assert_eq!(binary, Binary::new());
}

#[test]
fn test_binary_methods() {
    let mut binary = Binary::new();

    // push
    binary.push(1);
    binary.push(2);
    binary.push(3);
    assert_eq!(binary.len(), 3);
    assert_eq!(&*binary, &[1, 2, 3]);

    // pop
    assert_eq!(binary.pop(), Some(3));
    assert_eq!(binary.len(), 2);
    assert_eq!(&*binary, &[1, 2]);

    // extend_from_slice
    binary.extend_from_slice(&[4, 5, 6]);
    assert_eq!(&*binary, &[1, 2, 4, 5, 6]);

    // truncate
    binary.truncate(3);
    assert_eq!(binary.len(), 3);
    assert_eq!(&*binary, &[1, 2, 4]);

    // clear
    binary.clear();
    assert_eq!(binary.len(), 0);
    assert!(binary.is_empty());

    // pop on empty
    assert_eq!(binary.pop(), None);
}

#[test]
fn test_binary_iterators() {
    let binary = Binary::from(vec![1u8, 2, 3]);

    // IntoIterator for Binary (consuming)
    let vec: Vec<u8> = binary.clone().into_iter().collect();
    assert_eq!(vec, vec![1, 2, 3]);

    // Iteration by reference
    let sum: u8 = binary.iter().sum();
    assert_eq!(sum, 6);

    // Iteration by mutable reference
    let mut binary = Binary::from(vec![1u8, 2, 3]);
    for byte in binary.iter_mut() {
        *byte *= 2;
    }
    assert_eq!(&*binary, &[2, 4, 6]);

    // From collected bytes
    let collected: Vec<u8> = vec![7u8, 8, 9].into_iter().collect();
    let binary = Binary::from(collected);
    assert_eq!(&*binary, &[7, 8, 9]);

    // Extending
    let mut binary = Binary::from(vec![1u8, 2]);
    binary.extend_from_slice(&[3, 4, 5]);
    assert_eq!(&*binary, &[1, 2, 3, 4, 5]);
}

#[test]
fn test_binary_partial_eq() {
    let binary = Binary::from(vec![1u8, 2, 3]);

    // PartialEq<[u8]>
    assert_eq!(binary, [1, 2, 3]);
    assert_ne!(binary, [1, 2]);

    // PartialEq<&[u8]>
    let slice: &[u8] = &[1, 2, 3];
    assert_eq!(binary, slice);

    // PartialEq<Vec<u8>>
    assert_eq!(binary, vec![1u8, 2, 3]);
    assert_ne!(binary, vec![1u8, 2]);

    // PartialEq<[u8; N]>
    assert_eq!(binary, [1u8, 2, 3]);
    assert_ne!(binary, [1u8, 2, 3, 4]);

    // PartialEq<&[u8; N]>
    let arr: &[u8; 3] = &[1, 2, 3];
    assert_eq!(binary, arr);

    // Byte literals
    let binary = Binary::from(b"hello");
    assert_eq!(binary, b"hello");
    assert_eq!(binary, b"hello".as_slice());
    assert_ne!(binary, b"world");
}

#[test]
fn test_binary_borrow() {
    let mut map: HashMap<Binary, &str> = HashMap::new();
    let key = Binary::from(vec![1u8, 2, 3]);
    map.insert(key.clone(), "value");

    // Can lookup with &[u8] thanks to Borrow<[u8]>
    let lookup: &[u8] = &[1, 2, 3];
    assert_eq!(map.get(lookup), Some(&"value"));

    // Can lookup with byte literal
    let key2 = Binary::from(b"hello");
    map.insert(key2.clone(), "world");
    assert_eq!(map.get(b"hello".as_slice()), Some(&"world"));
}

#[test]
fn binary_reserve_keeps_contents() {
    let mut binary = Binary::from(vec![1u8, 2]);
    binary.reserve(100);
    assert_eq!(binary, [1u8, 2]);
    assert!(binary.capacity() >= 102);
    binary.truncate(5);
    assert_eq!(binary.len(), 2);
    assert_eq!(binary.as_slice(), &[1u8, 2]);
}
