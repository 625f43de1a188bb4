//! The multi-value marshaling container: an ordered list of values standing
//! for the positional arguments or return values of one call.
//!
//! The list is held back-to-front so that pushing and popping at the logical
//! front are O(1); the view, indexing and conversion contracts all speak of
//! the logical front-to-back order.

use vstd::prelude::*;
use crate::value::Value;
use crate::error::Error;

verus! {

/// Reverses a vector.
fn reverse_vec<T>(v: Vec<T>) -> (r: Vec<T>)
    ensures
        r@ == v@.reverse(),
{
    let ghost orig = v@;
    let mut v = v;
    let mut out: Vec<T> = Vec::new();
    proof {
        assert(v@ =~= orig.subrange(0, v@.len() as int));
    }
    loop
        invariant
            v@.len() + out@.len() == orig.len(),
            v@ == orig.subrange(0, v@.len() as int),
            forall|k: int| 0 <= k < out@.len() ==> out@[k] == orig[orig.len() - 1 - k],
        ensures
            out@.len() == orig.len(),
            forall|k: int| 0 <= k < out@.len() ==> out@[k] == orig[orig.len() - 1 - k],
        decreases v@.len(),
    {
        match v.pop() {
            Option::Some(x) => {
                proof {
                    assert(x == orig[v@.len() as int]);
                }
                out.push(x);
                proof {
                    assert(v@ =~= orig.subrange(0, v@.len() as int));
                }
            },
            Option::None => {
                break;
            },
        }
    }
    proof {
        assert(out@.len() == orig.reverse().len());
        assert forall|i: int| 0 <= i < out@.len() implies out@[i] == orig.reverse()[i] by {
            assert(out@[i] == orig[orig.len() - 1 - i]);
        }
        assert(out@ =~= orig.reverse());
    }
    out
}

/// Multiple values used for argument passing and for multiple return values.
///
/// The view is the logical front-to-back sequence.
#[derive(Clone)]
pub struct MultiValue {
    values: Vec<Value>,
}

impl View for MultiValue {
    type V = Seq<Value>;

    closed spec fn view(&self) -> Seq<Value> {
        self.values@.reverse()
    }
}

/// Index of the first failed production in a refill input, or the input's
/// length when every production succeeded.
pub open spec fn first_failure(items: Seq<Result<Value, Error>>) -> int
    decreases items.len(),
{
    if items.len() == 0 {
        0
    } else if items[0] is Err {
        0
    } else {
        1 + first_failure(items.drop_first())
    }
}

/// The values of a refill input, each production assumed successful.
pub open spec fn ok_values(items: Seq<Result<Value, Error>>) -> Seq<Value> {
    items.map_values(|it: Result<Value, Error>| it->Ok_0)
}

impl MultiValue {
    /// Creates an empty container.
    pub fn new() -> (r: MultiValue)
        ensures
            r@ == Seq::<Value>::empty(),
    {
        let r = MultiValue { values: Vec::new() };
        proof {
            assert(r@ =~= Seq::<Value>::empty());
        }
        r
    }

    /// Wraps a list given in logical front-to-back order.
    pub fn from_vec(v: Vec<Value>) -> (r: MultiValue)
        ensures
            r@ == v@,
    {
        let ghost orig = v@;
        let r = MultiValue { values: reverse_vec(v) };
        proof {
            assert(r@ =~= orig);
        }
        r
    }

    /// Unwraps into a list in logical front-to-back order.
    pub fn into_vec(self) -> (r: Vec<Value>)
        ensures
            r@ == self@,
    {
        reverse_vec(self.values)
    }

    /// The value at a logical position, front first; the position must be
    /// in range.
    pub fn index(&self, index: usize) -> (r: &Value)
        requires
            index < self@.len(),
        ensures
            *r == self@[index as int],
    {
        &self.values[self.values.len() - index - 1]
    }

    /// The value at a logical position, front first.
    pub fn get(&self, index: usize) -> (r: Option<&Value>)
        ensures
            match r {
                Option::Some(v) => index < self@.len() && *v == self@[index as int],
                Option::None => index >= self@.len(),
            },
    {
        if index < self.values.len() {
            Option::Some(&self.values[self.values.len() - index - 1])
        } else {
            Option::None
        }
    }

    /// Removes and returns the logical front value.
    pub fn pop_front(&mut self) -> (r: Option<Value>)
        ensures
            match r {
                Option::Some(v) => old(self)@.len() > 0 && v == old(self)@[0] && final(self)@
                    == old(self)@.drop_first(),
                Option::None => old(self)@.len() == 0 && final(self)@ == old(self)@,
            },
    {
        let r = self.values.pop();
        proof {
            if old(self)@.len() > 0 {
                assert(self@ =~= old(self)@.drop_first());
            } else {
                assert(self@ =~= old(self)@);
            }
        }
        r
    }

    /// Inserts a value at the logical front.
    pub fn push_front(&mut self, value: Value)
        ensures
            final(self)@ == seq![value] + old(self)@,
    {
        self.values.push(value);
        proof {
            assert(self@ =~= seq![value] + old(self)@);
        }
    }

    /// Removes every value.
    pub fn clear(&mut self)
        ensures
            final(self)@ == Seq::<Value>::empty(),
    {
        self.values.clear();
        proof {
            assert(self@ =~= Seq::<Value>::empty());
        }
    }

    /// The number of values held.
    pub fn len(&self) -> (r: usize)
        ensures
            r == self@.len(),
    {
        self.values.len()
    }

    /// Whether no value is held.
    pub fn is_empty(&self) -> (r: bool)
        ensures
            r == (self@.len() == 0),
    {
        self.values.len() == 0
    }

    /// Removes and returns every value, in logical front-to-back order.
    pub fn drain_all(&mut self) -> (r: Vec<Value>)
        ensures
            r@ == old(self)@,
            final(self)@ == Seq::<Value>::empty(),
    {
        let mut taken: Vec<Value> = Vec::new();
        core::mem::swap(&mut self.values, &mut taken);
        proof {
            assert(self@ =~= Seq::<Value>::empty());
        }
        reverse_vec(taken)
    }

    /// Replaces the contents with the values of a sequence of fallible
    /// productions, drained from the given list in order.  On the first
    /// failure both the container and the remaining input are left cleared
    /// and that failure is returned.
    pub fn refill(&mut self, items: &mut Vec<Result<Value, Error>>) -> (r: Result<(), Error>)
        ensures
            final(items)@.len() == 0,
            r is Ok ==> first_failure(old(items)@) == old(items)@.len() && final(self)@
                == ok_values(old(items)@),
            r is Err ==> ({
                let k = first_failure(old(items)@);
                &&& k < old(items)@.len()
                &&& old(items)@[k] == Result::<Value, Error>::Err(r->Err_0)
                &&& final(self)@ == Seq::<Value>::empty()
            }),
    {
        self.values.clear();
        let ghost orig = items@;
        let mut taken: Vec<Value> = Vec::new();
        proof {
            lemma_first_failure_le(orig);
            assert(items@ =~= orig.subrange(taken@.len() as int, orig.len() as int));
        }
        while items.len() > 0
            invariant
                orig == old(items)@,
                taken@.len() + items@.len() == orig.len(),
                items@ == orig.subrange(taken@.len() as int, orig.len() as int),
                forall|k: int|
                    0 <= k < taken@.len() ==> (#[trigger] orig[k]) is Ok && taken@[k]
                        == orig[k]->Ok_0,
                first_failure(orig) >= taken@.len(),
                self@.len() == 0,
            decreases items@.len(),
        {
            let item = items.remove(0);
            proof {
                assert(item == orig[taken@.len() as int]);
                lemma_first_failure_step(orig, taken@.len() as int);
            }
            match item {
                Result::Ok(v) => {
                    taken.push(v);
                    proof {
                        assert(items@ =~= orig.subrange(taken@.len() as int, orig.len() as int));
                    }
                },
                Result::Err(e) => {
                    items.clear();
                    proof {
                        assert(self@ =~= Seq::<Value>::empty());
                    }
                    return Result::Err(e);
                },
            }
        }
        proof {
            lemma_first_failure_le(orig);
        }
        self.values = reverse_vec(taken);
        proof {
            assert(self@.len() == ok_values(orig).len());
            assert forall|i: int| 0 <= i < self@.len() implies self@[i] == ok_values(orig)[i] by {
                assert(self.values@[self@.len() - 1 - i] == taken@[i]);
            }
            assert(self@ =~= ok_values(orig));
        }
        Result::Ok(())
    }
}

/// The first failure is never past the end.
proof fn lemma_first_failure_le(items: Seq<Result<Value, Error>>)
    ensures
        0 <= first_failure(items) <= items.len(),
    decreases items.len(),
{
    if items.len() > 0 && !(items[0] is Err) {
        lemma_first_failure_le(items.drop_first());
    }
}

impl Default for MultiValue {
    /// The default container is empty.
    fn default() -> (r: MultiValue)
        ensures
            r@ == Seq::<Value>::empty(),
    {
        MultiValue::new()
    }
}

impl MultiValue {
    /// The values in logical front-to-back order, borrowed in place.
    pub fn iter(&self) -> (r: Vec<&Value>)
        ensures
            r@.len() == self@.len(),
            forall|i: int| 0 <= i < r@.len() ==> *r@[i] == self@[i],
    {
        let mut out: Vec<&Value> = Vec::new();
        let n = self.values.len();
        let mut i: usize = 0;
        while i < n
            invariant
                n == self.values@.len(),
                n == self@.len(),
                self@ == self.values@.reverse(),
                i <= n,
                out@.len() == i,
                forall|k: int| 0 <= k < i ==> *out@[k] == self@[k],
            decreases n - i,
        {
            out.push(&self.values[n - 1 - i]);
            i += 1;
        }
        out
    }
}

/// Unfolds `first_failure` at a position all of whose predecessors succeed.
proof fn lemma_first_failure_step(items: Seq<Result<Value, Error>>, n: int)
    requires
        0 <= n < items.len(),
        first_failure(items) >= n,
    ensures
        items[n] is Err ==> first_failure(items) == n,
        items[n] is Ok ==> first_failure(items) >= n + 1,
    decreases n,
{
    lemma_first_failure_le(items.drop_first());
    if n > 0 {
        assert(items.len() > 0 && items[0] is Ok);
        lemma_first_failure_step(items.drop_first(), n - 1);
        assert(items.drop_first()[n - 1] == items[n]);
    }
}

} // verus!
