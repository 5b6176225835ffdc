use algorithms::linked_list::{Cons, LinkedList, Nil};
use std::marker::PhantomData;

#[test]
fn stack_construction() {
    let none: Nil<i32> = Nil { _p: PhantomData };
    assert_eq!(none.head(), Option::None);

    let list_1 = Cons { h: 1i32, t: none };
    assert_eq!(list_1.head(), Option::Some(&1));
    assert_eq!(list_1.tail().head(), Option::None);

    let list_2 = Cons { h: 2i32, t: list_1 };
    assert_eq!(list_2.head(), Option::Some(&2));
    assert_eq!(list_2.tail().head(), Option::Some(&1));
    assert_eq!(list_2.tail().tail().head(), Option::None);
}

fn some_linked_list() -> Box<Cons<i32, Nil<i32>>> {
    let none: Nil<i32> = Nil { _p: PhantomData };
    let list_1 = Cons { h: 1i32, t: none };
    Box::new(list_1)
}

#[test]
fn heap_construction() {
    let list_1 = some_linked_list();
    assert_eq!(list_1.head(), Option::Some(&1));
    assert_eq!(list_1.tail().head(), Option::None);

    let list_2 = Cons { h: 2i32, t: list_1 };

    assert_eq!(list_2.head(), Option::Some(&2));
    assert_eq!(list_2.tail().head(), Option::Some(&1));
    assert_eq!(list_2.tail().tail().head(), Option::None);
}

fn prepend_some<L>(l: L) -> Box<Cons<i32, Cons<i32, L>>>
where
    L: LinkedList<Item = i32>,
{
    let list_1 = Cons { h: 4i32, t: l };
    let list_2 = Cons { h: 5i32, t: list_1 };
    Box::new(list_2)
}

#[test]
fn mixed_construction() {
    let list_1 = some_linked_list();
    let list_2 = Cons { h: 2i32, t: list_1 };
    let list_3 = Cons { h: 3i32, t: list_2 };
    let list_4 = prepend_some(list_3);

    assert_eq!(list_4.head(), Option::Some(&5));
}

#[test]
fn iter_stack() {
    let none: Nil<i32> = Nil { _p: PhantomData };
    let list_1 = Cons { h: 1i32, t: none };
    let list_2 = Cons { h: 2i32, t: list_1 };

    let mut iter = list_2.iter();

    assert_eq!(iter.next(), Option::Some(&2));
    assert_eq!(iter.next(), Option::Some(&1));
    assert_eq!(iter.next(), Option::None);
}

#[test]
fn iter_loop() {
    let none: Nil<i32> = Nil { _p: PhantomData };
    let list_1 = Cons { h: 1i32, t: none };
    let list_2 = Cons { h: 2i32, t: list_1 };

    let mut output = String::new();

    let mut it = list_2.iter();
    while let Some(i) = it.next() {
        output.push_str(&format!("{},", i));
    }

    assert_eq!(output, "2,1,")
}
