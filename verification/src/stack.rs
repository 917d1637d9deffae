//! The value stack that scripts work on.
use crate::internals::{
    lemma_values_view, lemma_values_view_add, lemma_values_view_push, lemma_values_view_skip,
    lemma_values_view_take, value_view, values_view, Value, ValueV,
};
use vstd::prelude::*;

verus! {

/// The stack of values; its top is the last element.
#[derive(Debug)]
pub struct Stack(pub Vec<Value>);

impl View for Stack {
    type V = Seq<ValueV>;

    open spec fn view(&self) -> Seq<ValueV> {
        values_view(self.0@)
    }
}

impl Stack {
    /// An empty stack.
    pub fn new() -> (r: Stack)
        ensures
            r.0@.len() == 0,
            r@ == Seq::<ValueV>::empty(),
    {
        Stack(Vec::new())
    }

    /// A stack holding the given values, the last on top.
    pub fn new_with(v: Vec<Value>) -> (r: Stack)
        ensures
            r.0 == v,
    {
        Stack(v)
    }

    /// Pushes a value on top.
    pub fn push(&mut self, v: Value)
        ensures
            final(self).0@ == old(self).0@.push(v),
            final(self)@ == old(self)@.push(v@),
    {
        proof {
            lemma_values_view_push(self.0@, v);
        }
        self.0.push(v);
    }

    /// Pushes anything that converts into a value.
    pub fn push_this<T: Into<Value>>(&mut self, v: T)
        ensures
            final(self).0@.len() == old(self).0@.len() + 1,
            final(self).0@.drop_last() == old(self).0@,
            call_ensures(T::into, (v,), final(self).0@.last()),
    {
        let x: Value = v.into();
        self.0.push(x);
        assert(self.0@.drop_last() =~= old(self).0@);
    }

    /// Pushes the values in order, the last ending on top.
    pub fn pushn(&mut self, vs: Vec<Value>)
        ensures
            final(self).0@ == old(self).0@ + vs@,
            final(self)@ == old(self)@ + values_view(vs@),
    {
        let mut vs = vs;
        proof {
            lemma_values_view_add(self.0@, vs@);
        }
        self.0.append(&mut vs);
    }

    /// Takes the top value, if any.
    pub fn pop(&mut self) -> (r: Option<Value>)
        ensures
            old(self).0@.len() == 0 ==> r is None && final(self).0@ == old(self).0@,
            old(self).0@.len() > 0 ==> r == Some(old(self).0@.last()) && final(self).0@
                == old(self).0@.drop_last(),
            old(self)@.len() == old(self).0@.len(),
            old(self).0@.len() > 0 ==> final(self)@ == old(self)@.drop_last() && r.unwrap()@
                == old(self)@.last(),
    {
        proof {
            lemma_values_view(self.0@);
            if self.0@.len() > 0 {
                lemma_values_view_take(self.0@, self.0@.len() - 1);
                assert(self.0@.take(self.0@.len() - 1) =~= self.0@.drop_last());
                assert(values_view(self.0@).take(self.0@.len() - 1) =~= values_view(self.0@).drop_last());
            }
        }
        self.0.pop()
    }

    /// The top value, if any, left in place.
    pub fn peek(&mut self) -> (r: Option<&Value>)
        ensures
            *final(self) == *old(self),
            old(self).0@.len() == 0 ==> r is None,
            old(self).0@.len() > 0 ==> r == Some(&old(self).0@.last()),
    {
        if self.0.len() == 0 {
            None
        } else {
            let n = self.0.len() - 1;
            Some(&self.0[n])
        }
    }

    /// The top value, if any.
    pub fn top(&self) -> (r: Option<&Value>)
        ensures
            self.0@.len() == 0 ==> r is None,
            self.0@.len() > 0 ==> r == Some(&self.0@.last()),
    {
        if self.0.len() == 0 {
            None
        } else {
            Some(&self.0[self.0.len() - 1])
        }
    }

    /// Takes the top `n` values, in stack order; none when there are fewer.
    pub fn popn(&mut self, n: usize) -> (r: Option<Vec<Value>>)
        ensures
            n > old(self).0@.len() ==> r is None && final(self).0@ == old(self).0@,
            n <= old(self).0@.len() ==> (r matches Some(xs) && xs@ == old(self).0@.skip(
                old(self).0@.len() - n,
            ) && final(self).0@ == old(self).0@.take(old(self).0@.len() - n)),
            n <= old(self).0@.len() ==> (r matches Some(xs) && values_view(xs@) == old(self)@.skip(
                old(self)@.len() - n,
            ) && final(self)@ == old(self)@.take(old(self)@.len() - n)),
    {
        proof {
            lemma_values_view(self.0@);
        }
        if n > self.0.len() {
            return None;
        }
        let at = self.0.len() - n;
        proof {
            lemma_values_view_take(self.0@, at as int);
            lemma_values_view_skip(self.0@, at as int);
            assert(self.0@.subrange(0, at as int) =~= self.0@.take(at as int));
            assert(self.0@.subrange(at as int, self.0@.len() as int) =~= self.0@.skip(at as int));
        }
        Some(self.0.split_off(at))
    }

    /// The values, bottom first.
    pub fn as_slice(&self) -> (r: &[Value])
        ensures
            r@ == self.0@,
    {
        self.0.as_slice()
    }

    /// The values, bottom first, consuming the stack.
    pub fn into_vec(self) -> (r: Vec<Value>)
        ensures
            r == self.0,
    {
        self.0
    }

    /// Whether the stack is empty.
    pub fn is_empty(&self) -> (r: bool)
        ensures
            r == (self.0@.len() == 0),
    {
        self.0.len() == 0
    }

    /// The number of values.
    pub fn len(&self) -> (r: usize)
        ensures
            r == self.0@.len(),
            r == self@.len(),
    {
        proof {
            lemma_values_view(self.0@);
        }
        self.0.len()
    }

    /// Takes all the values, leaving the stack empty.
    pub fn take(&mut self) -> (r: Vec<Value>)
        ensures
            r == old(self).0,
            final(self).0@.len() == 0,
    {
        let mut out: Vec<Value> = Vec::new();
        std::mem::swap(&mut out, &mut self.0);
        out
    }

    /// Takes the top value, if any, and hands it to `get_fn`.
    pub fn pop_this<T, F: Fn(Value) -> Result<T, Value>>(&mut self, get_fn: F) -> (r: Option<Result<T, Value>>)
        requires
            forall|v: Value| get_fn.requires((v,)),
        ensures
            old(self).0@.len() == 0 ==> r is None && final(self).0@ == old(self).0@,
            old(self).0@.len() > 0 ==> final(self).0@ == old(self).0@.drop_last(),
            old(self).0@.len() > 0 ==> (r matches Some(x) && get_fn.ensures((old(self).0@.last(),), x)),
    {
        match self.pop() {
            Some(v) => Some(get_fn(v)),
            None => None,
        }
    }

    /// Hands the top value, if any, to `get_fn`, leaving it in place.
    pub fn peek_this<'a, T, F: Fn(&'a Value) -> Result<&'a T, &'a Value>>(&'a self, get_fn: F) -> (r: Option<Result<&'a T, &'a Value>>)
        requires
            forall|v: &'a Value| get_fn.requires((v,)),
        ensures
            self.0@.len() == 0 ==> r is None,
            self.0@.len() > 0 ==> (r matches Some(x) && get_fn.ensures((&self.0@.last(),), x)),
    {
        match self.top() {
            Some(v) => Some(get_fn(v)),
            None => None,
        }
    }
}

} // verus!
