struct MyCollection(Vec<i32>);

impl MyCollection {
    fn new() -> Self {
        Self(Vec::new())
    }

    fn add(&mut self, value: i32) {
        self.0.push(value);
    }
}

impl FromIterator<i32> for MyCollection {
    fn from_iter<T: IntoIterator<Item = i32>>(iter: T) -> Self {
        let mut c = MyCollection::new();
        for i in iter {
            c.add(i);
        }
        c
    }
}

#[test]
fn from_iter_test() {
    let i = 0..5;
    let c: MyCollection = i.collect();
    assert_eq!(c.0, vec![0, 1, 2, 3, 4]);
}

#[test]
#[allow(clippy::vec_init_then_push, clippy::flat_map_identity)]
fn option_auto_unwrap() {
    // `Result` and `Option` both turn into iterators
    let mut v = Vec::<Option<i8>>::new();
    v.push(Some(1));
    v.push(Some(2));
    v.push(Some(3));
    for ele in v.iter().flatten() {
        println!("{}", ele);
    }

    v.iter().flat_map(|x| x).for_each(|x| println!("{}", x));
}
