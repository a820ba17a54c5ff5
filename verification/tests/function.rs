use optimization::function::Function;

struct Square;

impl Function<i64, i64> for Square {
    fn compute(&self, point: i64) -> i64 {
        point * point
    }
}

struct Shift(i64);

impl Function<i64, i64> for Shift {
    fn compute(&self, point: i64) -> i64 {
        point + self.0
    }
}

#[test]
fn boxed_and_borrowed_functions() {
    let b: Box<dyn Function<i64, i64>> = Box::new(Square);
    assert_eq!(b.compute(7), 49);
    let r: &dyn Function<i64, i64> = &Shift(3);
    assert_eq!(r.compute(7), 10);
}

#[test]
fn arrays_of_functions_give_arrays_of_values() {
    let fs = [Shift(1), Shift(2), Shift(-5)];
    assert_eq!(fs.compute(10), [11, 12, 5]);
    let mixed: [Box<dyn Function<i64, i64>>; 2] = [Box::new(Square), Box::new(Shift(1))];
    assert_eq!(mixed.compute(3), [9, 4]);
}

struct Cube;

impl optimization::functions::Function<i64, i64> for Cube {
    fn compute(&self, point: i64) -> i64 {
        point * point * point
    }
}

#[test]
fn second_function_trait_boxes_and_arrays() {
    let b: Box<dyn optimization::functions::Function<i64, i64>> = Box::new(Cube);
    assert_eq!(optimization::functions::Function::compute(&b, 2), 8);
    assert_eq!(optimization::functions::Function::compute(&[Cube, Cube], -1), [-1, -1]);
}

#[test]
fn closures_are_functions() {
    let double = |x: i64| 2 * x;
    assert_eq!(Function::compute(&double, 21), 42);
    let boxed: Box<dyn Function<i64, i64>> = Box::new(|x: i64| x - 1);
    assert_eq!(boxed.compute(0), -1);
    let inc = |x: i64| x + 1;
    let pair = [inc, inc];
    assert_eq!(pair.compute(1), [2, 2]);
    let cube = |x: i64| x * x * x;
    assert_eq!(optimization::functions::Function::compute(&cube, 3), 27);
}
