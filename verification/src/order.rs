//! The order of texts: by code point, character by character.

use core::cmp::Ordering;
use vstd::prelude::*;
use vstd::std_specs::iter::IteratorSpec;

verus! {

/// The lexical order of two texts: that of their first differing characters,
/// by code point; a text comes before every longer text that starts with it.
pub open spec fn lexical_order(a: Seq<char>, b: Seq<char>) -> Ordering
    decreases a.len(),
{
    if a.len() == 0 {
        if b.len() == 0 {
            Ordering::Equal
        } else {
            Ordering::Less
        }
    } else if b.len() == 0 {
        Ordering::Greater
    } else if a.first() == b.first() {
        lexical_order(a.drop_first(), b.drop_first())
    } else if a.first() < b.first() {
        Ordering::Less
    } else {
        Ordering::Greater
    }
}

/// `Less` for `Greater` and `Greater` for `Less`.
pub open spec fn reversed(order: Ordering) -> Ordering {
    match order {
        Ordering::Less => Ordering::Greater,
        Ordering::Equal => Ordering::Equal,
        Ordering::Greater => Ordering::Less,
    }
}

/// Swapping two texts reverses their order.
pub proof fn lemma_lexical_order_reverses(a: Seq<char>, b: Seq<char>)
    ensures
        lexical_order(b, a) == reversed(lexical_order(a, b)),
    decreases a.len(),
{
    if a.len() > 0 && b.len() > 0 && a.first() == b.first() {
        lemma_lexical_order_reverses(a.drop_first(), b.drop_first());
    }
}

/// Only a text itself is equal to it in the lexical order.
pub proof fn lemma_lexical_order_equal(a: Seq<char>, b: Seq<char>)
    ensures
        lexical_order(a, b) is Equal <==> a == b,
    decreases a.len(),
{
    if a.len() > 0 && b.len() > 0 && a.first() == b.first() {
        lemma_lexical_order_equal(a.drop_first(), b.drop_first());
        if a.drop_first() == b.drop_first() {
            assert(a =~= seq![a.first()] + a.drop_first());
            assert(b =~= seq![b.first()] + b.drop_first());
        }
    } else if a.len() == 0 && b.len() == 0 {
        assert(a =~= b);
    }
}

/// The lexical order is transitive: a text not greater than a second, which
/// is not greater than a third, is not greater than the third.
pub proof fn lemma_lexical_order_transitive(a: Seq<char>, b: Seq<char>, c: Seq<char>)
    requires
        !(lexical_order(a, b) is Greater),
        !(lexical_order(b, c) is Greater),
    ensures
        !(lexical_order(a, c) is Greater),
    decreases a.len(),
{
    if a.len() > 0 && b.len() > 0 && c.len() > 0 && a.first() == b.first() && b.first()
        == c.first() {
        lemma_lexical_order_transitive(a.drop_first(), b.drop_first(), c.drop_first());
    }
}

/// Compares two texts lexically.
pub fn compare_text(a: &str, b: &str) -> (order: Ordering)
    ensures
        order == lexical_order(a@, b@),
{
    let mut left = a.chars();
    let mut right = b.chars();
    let ghost mut done: int = 0;
    assert(a@.skip(0) =~= a@ && b@.skip(0) =~= b@);
    loop
        invariant
            0 <= done <= a@.len(),
            done <= b@.len(),
            left.remaining() == a@.skip(done),
            right.remaining() == b@.skip(done),
            lexical_order(a@, b@) == lexical_order(a@.skip(done), b@.skip(done)),
        decreases a@.len() - done,
    {
        let x = left.next();
        let y = right.next();
        match (x, y) {
            (None, None) => {
                return Ordering::Equal;
            },
            (None, Some(_)) => {
                return Ordering::Less;
            },
            (Some(_), None) => {
                return Ordering::Greater;
            },
            (Some(c), Some(d)) => {
                proof {
                    assert(a@.skip(done).drop_first() =~= a@.skip(done + 1));
                    assert(b@.skip(done).drop_first() =~= b@.skip(done + 1));
                    done = done + 1;
                }
                if c != d {
                    if c < d {
                        return Ordering::Less;
                    } else {
                        return Ordering::Greater;
                    }
                }
            },
        }
    }
}

} // verus!
