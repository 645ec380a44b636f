#[derive(Debug, Default)]
pub struct Identifier<T> {
    inner: T,
}

impl<T> Identifier<T> {
    pub fn new(inner: T) -> Self {
        Self { inner }
    }
}

impl<T> Identifier<T>
where
    T: Copy,
{
    // only for types that have the Copy trait
    pub fn id(&self) -> T {
        self.inner
    }
}

impl<T> Identifier<T>
where
    T: Clone,
{
    pub fn clone_id(&self) -> T {
        self.inner.clone()
    }
}

pub type UserId<'a> = Identifier<&'a str>;
pub type ProductId = Identifier<String>;

#[test]
fn generic_as_types_test() {
    let num = Identifier::<i32>::new(12);
    assert!(num.id() == 12);
    let userid = UserId::new("userid");
    assert!(userid.id() == "userid");
    let productid = ProductId::new("productid".to_string());
    assert!(productid.clone_id() == "productid");
}
