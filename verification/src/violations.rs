//! Samples of what the rules are about: small functions, each written the
//! way that one detector reports, with a contract that says what it
//! computes. They serve as a corpus to try the scanner on.

use std::rc::Rc;
use std::sync::Arc;
use vstd::prelude::*;
use vstd::string::StringExecFns;
use crate::text::byte_len;
use crate::text::lemma_byte_len_utf8;

verus! {

/// The texts of `items`, one behind the other.
pub open spec fn concat_of(items: Seq<String>) -> Seq<char>
    decreases items.len(),
{
    if items.len() == 0 {
        Seq::empty()
    } else {
        concat_of(items.drop_last()) + items.last()@
    }
}

/// Joins texts by appending in a loop, without reserving.
pub fn string_concat(items: &[String]) -> (out: String)
    ensures
        out@ == concat_of(items@),
{
    let mut out = String::new();
    let mut i: usize = 0;
    proof {
        assert(items@.subrange(0, 0) =~= Seq::<String>::empty());
    }
    while i < items.len()
        invariant
            0 <= i <= items@.len(),
            out@ == concat_of(items@.subrange(0, i as int)),
        decreases items@.len() - i,
    {
        proof {
            assert(items@.subrange(0, i + 1).drop_last() =~= items@.subrange(0, i as int));
        }
        out.append(items[i].as_str());
        i += 1;
    }
    proof {
        assert(items@.subrange(0, items@.len() as int) =~= items@);
    }
    out
}

/// Copies numbers by pushing in a loop, without reserving.
pub fn vec_push(values: &[i32]) -> (data: Vec<i32>)
    ensures
        data@ == values@,
{
    let mut data: Vec<i32> = Vec::new();
    let mut i: usize = 0;
    while i < values.len()
        invariant
            0 <= i <= values@.len(),
            data@ == values@.subrange(0, i as int),
        decreases values@.len() - i,
    {
        data.push(values[i]);
        proof {
            assert(data@ =~= values@.subrange(0, i + 1));
        }
        i += 1;
    }
    proof {
        assert(values@.subrange(0, values@.len() as int) =~= values@);
    }
    data
}

/// Something that takes numbers one at a time.
pub trait Handler {
    fn handle(&self, value: i32);
}

/// Hands each number to a handler that is known only at run time.
pub fn dyn_dispatch(items: &[i32], handler: &dyn Handler) {
    let mut i: usize = 0;
    while i < items.len()
        invariant
            0 <= i <= items@.len(),
        decreases items@.len() - i,
    {
        handler.handle(items[i]);
        i += 1;
    }
}

/// The lengths in bytes of the texts of `values`, added up.
pub open spec fn total_len(values: Seq<Rc<String>>) -> nat
    decreases values.len(),
{
    if values.len() == 0 {
        0
    } else {
        total_len(values.drop_last()) + byte_len((*values.last())@)
    }
}

/// A shorter list has no greater total.
proof fn lemma_total_len_grows(values: Seq<Rc<String>>, k: int)
    requires
        0 <= k <= values.len(),
    ensures
        total_len(values.subrange(0, k)) <= total_len(values),
    decreases values.len() - k,
{
    if k == values.len() {
        assert(values.subrange(0, k) =~= values);
    } else {
        assert(values.drop_last().subrange(0, k) =~= values.subrange(0, k));
        lemma_total_len_grows(values.drop_last(), k);
    }
}

/// Adds up the lengths in bytes of texts, cloning each to ask its length.
pub fn needless_clone(values: &[Rc<String>], extra: Arc<String>) -> (total: usize)
    requires
        total_len(values@) + byte_len((*extra)@) <= usize::MAX,
    ensures
        total == total_len(values@) + byte_len((*extra)@),
{
    let mut total: usize = 0;
    let mut i: usize = 0;
    proof {
        assert(values@.subrange(0, 0) =~= Seq::<Rc<String>>::empty());
    }
    while i < values.len()
        invariant
            0 <= i <= values@.len(),
            total == total_len(values@.subrange(0, i as int)),
            total_len(values@) <= usize::MAX,
        decreases values@.len() - i,
    {
        proof {
            assert(values@.subrange(0, i + 1).drop_last() =~= values@.subrange(0, i as int));
            lemma_total_len_grows(values@, i + 1);
            lemma_byte_len_utf8((*values@[i as int])@);
        }
        let copy: String = (*values[i]).clone();
        total += copy.as_str().len();
        i += 1;
    }
    proof {
        assert(values@.subrange(0, values@.len() as int) =~= values@);
        lemma_byte_len_utf8((*extra)@);
    }
    let copy: String = (*extra).clone();
    total + copy.as_str().len()
}

/// The number of the `values` that are positive.
pub open spec fn positives(values: Seq<i32>) -> nat
    decreases values.len(),
{
    if values.len() == 0 {
        0
    } else if values.last() > 0 {
        positives(values.drop_last()) + 1
    } else {
        positives(values.drop_last())
    }
}

/// Counts the positive numbers.
pub fn count_positive(values: &[i32]) -> (count: usize)
    ensures
        count == positives(values@),
{
    let mut count: usize = 0;
    let mut i: usize = 0;
    proof {
        assert(values@.subrange(0, 0) =~= Seq::<i32>::empty());
    }
    while i < values.len()
        invariant
            0 <= i <= values@.len(),
            count <= i,
            count == positives(values@.subrange(0, i as int)),
        decreases values@.len() - i,
    {
        proof {
            assert(values@.subrange(0, i + 1).drop_last() =~= values@.subrange(0, i as int));
        }
        if values[i] > 0 {
            count += 1;
        }
        i += 1;
    }
    proof {
        assert(values@.subrange(0, values@.len() as int) =~= values@);
    }
    count
}

/// Puts a pair of numbers on the heap.
pub fn boxed_point(x: i32, y: i32) -> (point: Box<(i32, i32)>)
    ensures
        *point == (x, y),
{
    Box::new((x, y))
}

/// An enum with one small and one very large variant.
pub enum Mixed {
    Thin(u8),
    Heavy([u8; 8192]),
}

/// Takes a value and lets go of it.
pub fn touch<T>(value: T) {
    let _ = value;
}

} // verus!
