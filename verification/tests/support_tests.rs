use std::rc::Rc;
use tox::list::List;
use tox::number::Number;
use tox::text::{append, before, chars_of, decimal, string_of};

fn number(v: f64) -> Number {
    Number::new(v.to_bits(), v.to_string())
}

#[test]
fn decimal_numerals() {
    assert_eq!(decimal(0), "0");
    assert_eq!(decimal(7), "7");
    assert_eq!(decimal(10), "10");
    assert_eq!(decimal(255), "255");
    assert_eq!(decimal(1234567890), "1234567890");
    assert_eq!(decimal(usize::MAX), usize::MAX.to_string());
}

#[test]
fn characters_and_strings() {
    assert_eq!(chars_of("a✓b"), vec!['a', '✓', 'b']);
    assert!(chars_of("").is_empty());
    let chars = chars_of("hello");
    assert_eq!(string_of(&chars, 1, 4), "ell");
    assert_eq!(string_of(&chars, 2, 2), "");
    assert_eq!(string_of(&chars, 0, 5), "hello");
    let mut s = "ab".to_string();
    append(&mut s, "cd");
    append(&mut s, "");
    assert_eq!(s, "abcd");
}

#[test]
fn order_of_texts() {
    assert!(before("a", "b"));
    assert!(!before("b", "a"));
    assert!(!before("a", "a"));
    assert!(before("", "a"));
    assert!(!before("a", ""));
    assert!(!before("", ""));
    assert!(before("a", "ab"));
    assert!(!before("ab", "a"));
    assert!(before("Z", "a"));
    assert!(before("abc", "abd"));
    assert!(before("z", "é"));
    for (a, b) in [("a", "b"), ("é", "z"), ("", "x"), ("same", "same"), ("10", "9")] {
        assert_eq!(before(a, b), a < b);
        assert_eq!(before(b, a), b < a);
    }
}

#[test]
fn order_of_numbers() {
    let values = [
        f64::NEG_INFINITY,
        -1e300,
        -2.5,
        -1.0,
        -f64::MIN_POSITIVE,
        -0.0,
        0.0,
        f64::MIN_POSITIVE,
        0.1,
        1.0,
        2.5,
        1e300,
        f64::INFINITY,
        f64::NAN,
        -f64::NAN,
    ];
    for a in values {
        for b in values {
            assert_eq!(number(a).less(&number(b)), a < b, "{} < {}", a, b);
            assert_eq!(number(a).equals(&number(b)), a == b, "{} == {}", a, b);
        }
        assert_eq!(number(a).is_zero(), a == 0.0);
        assert_eq!(number(a).is_nan(), a.is_nan());
    }
}

#[test]
fn number_keeps_what_it_was_given() {
    let n = Number::new(7, "seven".to_string());
    assert_eq!(n.bits, 7);
    assert_eq!(n.text, "seven");
    let m = n.clone();
    assert_eq!(m.bits, 7);
    assert_eq!(m.text, "seven");
}

fn items(list: &Rc<List<u32>>) -> Vec<u32> {
    let mut out = vec![];
    let mut cur: &List<u32> = list;
    loop {
        match cur {
            List::Nil => return out,
            List::Cons { head, tail } => {
                out.push(*head);
                cur = tail;
            }
        }
    }
}

#[test]
fn lists_keep_their_order() {
    let list = List::from_vec(vec![1, 2, 3]);
    assert_eq!(items(&list), vec![1, 2, 3]);
    assert_eq!(list.len(), 3);
    let empty: Rc<List<u32>> = List::empty();
    assert_eq!(empty.len(), 0);
    assert!(items(&List::from_vec(vec![])).is_empty());
    let longer = List::cons(0, list);
    assert_eq!(items(&longer), vec![0, 1, 2, 3]);
    assert_eq!(longer.len(), 4);
}
