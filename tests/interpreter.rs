use interp::interpreter::{Compile, Interpreter};

#[test]
fn adding_two_numbers() {
    assert!(Interpreter::from_source("fn main(name: int){let s = 1 + 2;}").is_ok());
}

#[test]
fn subtracting_two_numbers() {
    assert!(Interpreter::from_source("fn main(){let s = 3 - 1;}").is_ok());
}

#[test]
fn increasing_a_number() {
    assert!(Interpreter::from_source("fn main(){let s = 2; s++;}").is_ok());
}

#[test]
fn decreasing_a_number() {
    assert!(Interpreter::from_source("fn main(a:int){let s=3;s--;}").is_ok());
}

#[test]
fn multiplying_two_numbers() {
    assert!(Interpreter::from_source("fn main(){let s = 3*2;}").is_ok());
}

#[test]
fn dividing_two_numbers() {
    assert!(Interpreter::from_source("fn main(){let s = 6/2;}").is_ok());
}

#[test]
fn creating_a_variable() {
    assert!(Interpreter::from_source("fn main(){
        let s = 2;
        }").is_ok());
}

#[test]
fn requiring_a_main() {
    assert!(Interpreter::from_source("").is_err());
    assert!(Interpreter::from_source("let s = 2;").is_err());
    assert!(Interpreter::from_source("fn foo(){let s = 2;}").is_err());
    assert!(Interpreter::from_source("fn main(){let s = 2;}").is_ok());
}
