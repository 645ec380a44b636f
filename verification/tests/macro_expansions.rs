// Vector-building shorthand, written out by hand: an empty form, a
// comma-separated form with one push per element, and a repeat form.

#[test]
fn test_declarative_macros() {
    // an empty invocation expands to an empty vector
    let mut v: Vec<i32> = std::vec::Vec::new();
    v.push(1);
    println!("{:?}", v);

    // a comma-separated invocation expands to one push per element
    let v2 = {
        let mut v: Vec<i32> = std::vec::Vec::new();
        v.push(1);
        v.push(2);
        v.push(3);
        v
    };
    println!("{:?}", v2);

    println!("{:?}", {
        let mut v: Vec<i32> = std::vec::Vec::new();
        v.push(1);
        v.push(2);
        v.push(3);
        v
    });
    // an element-and-count invocation expands to a repeated vector
    println!("{:?}", vec![1; 3]);
}

#[test]
fn test_callback_pattern() {
    // calling back with `larch` picks the first recognizer arm
    println!("#1, the Larch.");
}

#[test]
fn test_internal_rules() {
    // the internal rule hands the expression through unchanged
    println!("{:?}", 1 + 2);
}
