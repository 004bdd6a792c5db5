//! Heap ownership through `Box`: recursive types, expression trees, moving
//! values out of boxes, and a singly-linked list.
use vstd::prelude::*;

verus! {

/// One node of the list: an element and the rest of the chain.
pub struct Node<T> {
    pub elem: T,
    pub next: Option<Box<Node<T>>>,
}

/// The elements reachable from a link, first to last.
pub open spec fn link_seq<T>(link: Option<Box<Node<T>>>) -> Seq<T>
    decreases link,
{
    match link {
        None => seq![],
        Some(node) => seq![node.elem] + link_seq(node.next),
    }
}

/// A generic singly-linked list; the most recently pushed element is first.
pub struct LinkedList<T> {
    head: Option<Box<Node<T>>>,
}

impl<T> LinkedList<T> {
    /// The elements, most recently pushed first.
    pub closed spec fn view(&self) -> Seq<T> {
        link_seq(self.head)
    }

    /// An empty list.
    pub fn new() -> (l: Self)
        ensures
            l.view() == Seq::<T>::empty(),
    {
        LinkedList { head: None }
    }

    /// Puts `elem` in front of the list.
    pub fn push(&mut self, elem: T)
        ensures
            final(self).view() == seq![elem] + old(self).view(),
    {
        let head = self.head.take();
        match head {
            None => self.head = Some(Box::new(Node { elem, next: None })),
            Some(node) => {
                let new_node = Box::new(Node { elem, next: Some(node) });
                self.head = Some(new_node);
            },
        }
    }

    /// Takes the front element off the list (last in, first out).
    pub fn pop(&mut self) -> (r: Option<T>)
        ensures
            old(self).view().len() == 0 ==> r is None && final(self).view() == old(self).view(),
            old(self).view().len() > 0 ==> r == Some(old(self).view()[0]) && final(self).view()
                == old(self).view().drop_first(),
    {
        let head = self.head.take();
        match head {
            None => None,
            Some(node) => {
                let node = *node;
                self.head = node.next;
                proof {
                    assert(old(self).view().drop_first() =~= link_seq(self.head));
                }
                Some(node.elem)
            },
        }
    }

    /// Number of elements, counted by walking the links.
    pub fn len(&self) -> (n: usize)
        requires
            self.view().len() <= usize::MAX,
        ensures
            n == self.view().len(),
    {
        let mut size: usize = 0;
        let mut current = &self.head;
        loop
            invariant
                size + link_seq(*current).len() == self.view().len(),
                self.view().len() <= usize::MAX,
            ensures
                size == self.view().len(),
            decreases link_seq(*current).len(),
        {
            match current {
                None => break,
                Some(node) => {
                    size = size + 1;
                    current = &node.next;
                },
            }
        }
        size
    }

    /// Empties the list one node at a time.
    pub fn clear(&mut self)
        ensures
            final(self).view() == Seq::<T>::empty(),
    {
        let mut current = self.head.take();
        while current.is_some()
            invariant
                self.head is None,
            decreases link_seq(current).len(),
        {
            let node = current.unwrap();
            let node = *node;
            current = node.next;
        }
    }
}

impl<T> LinkedList<T> {
    /// A borrowing walk over the elements, front to back.
    pub fn iter(&self) -> (it: Iter<'_, T>)
        ensures
            it.view() == self.view(),
    {
        match &self.head {
            None => Iter { next: None },
            Some(node) => Iter { next: Some(&**node) },
        }
    }
}

/// Walks a list's elements by reference.
pub struct Iter<'a, T> {
    next: Option<&'a Node<T>>,
}

impl<'a, T> Iter<'a, T> {
    /// The elements still to be yielded.
    pub closed spec fn view(&self) -> Seq<T> {
        match self.next {
            None => seq![],
            Some(node) => seq![node.elem] + link_seq(node.next),
        }
    }

    /// Yields the next element, if any.
    pub fn next(&mut self) -> (r: Option<&'a T>)
        ensures
            old(self).view().len() == 0 ==> r is None && final(self).view().len() == 0,
            old(self).view().len() > 0 ==> r == Some(&old(self).view()[0]) && final(self).view()
                == old(self).view().drop_first(),
    {
        match self.next {
            None => None,
            Some(node) => {
                self.next = match &node.next {
                    None => None,
                    Some(b) => Some(&**b),
                };
                proof {
                    assert(old(self).view().drop_first() =~= self.view());
                }
                Some(&node.elem)
            },
        }
    }
}

impl<T> Drop for LinkedList<T> {
    fn drop(&mut self)
        opens_invariants none
        no_unwind
    {
        let mut current: Option<Box<Node<T>>> = None;
        core::mem::swap(&mut current, &mut self.head);
        loop
            decreases link_seq(current).len(),
        {
            match current {
                None => break,
                Some(node) => {
                    let node = *node;
                    current = node.next;
                },
            }
        }
    }
}

/// Adds a plain number to one read through a box.
pub fn boxed_sum(b: Box<i64>, n: i64) -> (r: i64)
    requires
        i64::MIN <= *b + n <= i64::MAX,
    ensures
        r == *b + n,
{
    *b + n
}

/// A cons list of integers; the tail sits behind a `Box`.
pub enum List {
    Cons(i32, Box<List>),
    Nil,
}

/// The sum of a cons list's elements.
pub open spec fn list_sum(l: List) -> int
    decreases l,
{
    match l {
        List::Nil => 0,
        List::Cons(v, rest) => v + list_sum(*rest),
    }
}

/// Every suffix sum of the list fits in an `i32`.
pub open spec fn list_sum_fits(l: List) -> bool
    decreases l,
{
    match l {
        List::Nil => true,
        List::Cons(v, rest) => i32::MIN <= list_sum(l) <= i32::MAX && list_sum_fits(*rest),
    }
}

/// Adds up every element of the list.
pub fn sum_list(list: &List) -> (r: i32)
    requires
        list_sum_fits(*list),
    ensures
        r == list_sum(*list),
    decreases list,
{
    match list {
        List::Nil => 0,
        List::Cons(v, rest) => *v + sum_list(rest),
    }
}

pub struct Person {
    pub name: String,
}

/// The byte length of a boxed person's name.
pub fn greet_len(p: &Box<Person>) -> (n: usize)
    ensures
        n == vstd::utf8::encode_utf8(p.name@).len() as usize,
{
    p.name.as_str().len()
}

/// Renames the boxed person in place and hands the box back.
pub fn rename(p: Box<Person>, new_name: &str) -> (r: Box<Person>)
    ensures
        r.name@ == new_name@,
{
    let mut p = p;
    p.name = new_name.to_owned();
    p
}

/// Moves the person out of the box.
pub fn unbox(p: Box<Person>) -> (r: Person)
    ensures
        r == *p,
{
    *p
}

/// An arithmetic expression tree; each child sits behind a `Box`.
pub enum Expr {
    Num(i64),
    Add(Box<Expr>, Box<Expr>),
    Mul(Box<Expr>, Box<Expr>),
}

/// The value of an expression.
pub open spec fn expr_value(e: Expr) -> int
    decreases e,
{
    match e {
        Expr::Num(n) => n as int,
        Expr::Add(a, b) => expr_value(*a) + expr_value(*b),
        Expr::Mul(a, b) => expr_value(*a) * expr_value(*b),
    }
}

/// Every subexpression's value fits in an `i64`.
pub open spec fn expr_fits(e: Expr) -> bool
    decreases e,
{
    &&& i64::MIN <= expr_value(e) <= i64::MAX
    &&& match e {
        Expr::Num(_) => true,
        Expr::Add(a, b) => expr_fits(*a) && expr_fits(*b),
        Expr::Mul(a, b) => expr_fits(*a) && expr_fits(*b),
    }
}

/// Computes an expression's value.
pub fn eval(e: &Expr) -> (r: i64)
    requires
        expr_fits(*e),
    ensures
        r == expr_value(*e),
    decreases e,
{
    match e {
        Expr::Num(n) => *n,
        Expr::Add(a, b) => eval(a) + eval(b),
        Expr::Mul(a, b) => eval(a) * eval(b),
    }
}

/// A named list of items.
pub struct Config {
    pub name: String,
    pub items: Vec<String>,
}

/// Moves the config out of its box and hands back its fields.
pub fn into_parts(b: Box<Config>) -> (r: (String, Vec<String>))
    ensures
        r.0 == b.name,
        r.1 == b.items,
{
    let Config { name, items } = *b;
    (name, items)
}

/// Takes the items out through a mutable reference, leaving an empty list.
pub fn steal_items(b: &mut Box<Config>) -> (r: Vec<String>)
    ensures
        r == old(b).items,
        final(b).items@ == Seq::<String>::empty(),
        final(b).name == old(b).name,
{
    let mut taken: Vec<String> = Vec::new();
    core::mem::swap(&mut taken, &mut b.items);
    taken
}

/// Why `parse_and_double` failed.
#[derive(Debug, Clone, Copy, PartialEq, Eq, Structural)]
pub enum DoubleError {
    Parse(crate::numparse::ParseIntError),
    Negative,
}

impl DoubleError {
    /// The message the error displays.
    pub fn message(&self) -> (m: String)
        ensures
            self matches DoubleError::Parse(e) ==> m@ == crate::numparse::kind_message(e.kind),
            self is Negative ==> m@ == "negative number"@,
    {
        match self {
            DoubleError::Parse(e) => e.message(),
            DoubleError::Negative => "negative number".to_owned(),
        }
    }
}

/// Parses an `i32`; refuses negatives; otherwise doubles it.
pub fn parse_and_double(s: &str) -> (r: Result<i32, DoubleError>)
    requires
        crate::numparse::spec_parse_i32(s@) matches Ok(v) ==> v * 2 <= i32::MAX,
    ensures
        match crate::numparse::spec_parse_i32(s@) {
            Err(k) => r == Err::<i32, DoubleError>(
                DoubleError::Parse(crate::numparse::ParseIntError { kind: k }),
            ),
            Ok(v) => if v < 0 {
                r == Err::<i32, DoubleError>(DoubleError::Negative)
            } else {
                r == Ok::<i32, DoubleError>((v * 2) as i32)
            },
        },
{
    let n = match crate::numparse::parse_i32(s) {
        Ok(n) => n,
        Err(e) => return Err(DoubleError::Parse(e)),
    };
    if n < 0 {
        Err(DoubleError::Negative)
    } else {
        Ok(n * 2)
    }
}

/// Calls `String::leak`: the text lives for the rest of the program.
#[verifier::external_body]
pub(crate) fn leak_string(s: String) -> (r: &'static str)
    ensures
        r@ == s@,
{
    s.leak()
}

/// Turns an owned string into one that lives for the rest of the program.
pub fn leak_static(s: String) -> (r: &'static str)
    ensures
        r@ == s@,
{
    leak_string(s)
}

} // verus!
