use backend::array::Array;

#[test]
fn push() {
    let mut array = Array::<u32, 1000>::new();
    let mut vec = Vec::new();
    for i in 0..1000 {
        array.push(i);
        vec.push(i);
    }
    assert_eq!(array.len(), 1000);
    for i in 0..1000usize {
        assert_eq!(*array.get(i), vec[i]);
    }
}

#[test]
fn into_iter() {
    let mut vec = Vec::new();
    for i in 0..1000 {
        vec.push(i);
    }
    let len = vec.len();
    let array = Array::<u32, 1000>::from_vec(vec);

    assert_eq!(len, array.len());
    let mut it = array.into_iter();
    for i in 0..1000 {
        let elem = it.next().unwrap();
        assert_eq!(elem, i);
    }
    assert!(it.next().is_none());

    let mut vec = Vec::new();
    for i in 333..555 {
        vec.push(i);
    }
    let len = vec.len();
    let array = Array::<u32, 1000>::from_vec(vec);

    assert_eq!(len, array.len());
    let mut it = array.into_iter();
    for i in 333..555 {
        let elem = it.next().unwrap();
        assert_eq!(elem, i);
    }
    assert!(it.next().is_none());
}

#[test]
fn iter() {
    let mut vec = Vec::new();
    for i in 0..1000 {
        vec.push(i);
    }
    let len = vec.len();
    let array = Array::<u32, 1000>::from_vec(vec);

    assert_eq!(len, array.len());
    let mut it = array.iter();
    for i in 0..1000 {
        let elem = it.next().unwrap();
        assert_eq!(elem, &i);
    }
    assert!(it.next().is_none());

    let mut vec = Vec::new();
    for i in 333..555 {
        vec.push(i);
    }
    let len = vec.len();
    let array = Array::<u32, 1000>::from_vec(vec);

    assert_eq!(len, array.len());
    let mut it = array.iter();
    for i in 333..555 {
        let elem = it.next().unwrap();
        assert_eq!(elem, &i);
    }
    assert!(it.next().is_none());
}

#[test]
fn remove_shifts_left() {
    let mut array = Array::<u32, 8>::new();
    for i in 0..5 {
        array.push(i * 10);
    }
    array.remove(1);
    assert_eq!(array.len(), 4);
    assert_eq!(*array.get(0), 0);
    assert_eq!(*array.get(1), 20);
    assert_eq!(*array.get(2), 30);
    assert_eq!(*array.get(3), 40);
}
