use std::rc::Rc;
use std::sync::Arc;

use perfcheck_lint::violations::boxed_point;
use perfcheck_lint::violations::count_positive;
use perfcheck_lint::violations::dyn_dispatch;
use perfcheck_lint::violations::needless_clone;
use perfcheck_lint::violations::string_concat;
use perfcheck_lint::violations::touch;
use perfcheck_lint::violations::vec_push;
use perfcheck_lint::violations::Handler;
use perfcheck_lint::violations::Mixed;

struct Sum(std::cell::Cell<i64>);

impl Handler for Sum {
    fn handle(&self, value: i32) {
        self.0.set(self.0.get() + i64::from(value));
    }
}

#[test]
fn the_samples_compute_what_they_say() {
    assert_eq!(string_concat(&["ab".to_string(), String::new(), "cé".to_string()]), "abcé");
    assert_eq!(string_concat(&[]), "");
    assert_eq!(vec_push(&[3, -1, 2]), vec![3, -1, 2]);
    assert_eq!(vec_push(&[]), Vec::<i32>::new());
    assert_eq!(count_positive(&[3, -1, 0, 2, i32::MAX, i32::MIN]), 3);
    assert_eq!(count_positive(&[]), 0);
    assert_eq!(*boxed_point(1, -2), (1, -2));
    assert_eq!(needless_clone(&[Rc::new("ab".to_string()), Rc::new("é".to_string())], Arc::new("xyz".to_string())), 7);
    assert_eq!(needless_clone(&[], Arc::new(String::new())), 0);
    let sum = Sum(std::cell::Cell::new(0));
    dyn_dispatch(&[1, 2, 3], &sum);
    assert_eq!(sum.0.get(), 6);
    touch(Mixed::Thin(1));
    touch(Mixed::Heavy([0; 8192]));
}
