use vstd::prelude::*;
use crate::text::{decimal, push_char, push_decimal};

verus! {

/// A span of the source text: the offsets of its first character and of the
/// character just past its end.
#[derive(Debug, Clone, Copy, PartialEq, Eq, Structural)]
pub struct Loc(pub usize, pub usize);

/// How a span is written: `start-end`.
pub open spec fn loc_text(l: Loc) -> Seq<char> {
    decimal(l.0 as nat).push('-') + decimal(l.1 as nat)
}

impl Loc {
    /// The smallest span that covers both spans.
    pub open spec fn spec_merge(self, other: Loc) -> Loc {
        Loc(
            if self.0 <= other.0 { self.0 } else { other.0 },
            if self.1 >= other.1 { self.1 } else { other.1 },
        )
    }

    /// The smallest span that covers both `self` and `other`.
    pub fn merge(&self, other: &Loc) -> (r: Loc)
        ensures
            r == self.spec_merge(*other),
            r.0 <= self.0 && r.0 <= other.0,
            r.1 >= self.1 && r.1 >= other.1,
    {
        let start = if self.0 <= other.0 { self.0 } else { other.0 };
        let end = if self.1 >= other.1 { self.1 } else { other.1 };
        Loc(start, end)
    }

    /// The span as it is written in messages: `start-end`.
    pub fn render(&self) -> (r: String)
        ensures
            r@ == loc_text(*self),
    {
        let mut out = String::new();
        push_decimal(&mut out, self.0 as u64);
        push_char(&mut out, '-');
        push_decimal(&mut out, self.1 as u64);
        assert(out@ =~= loc_text(*self));
        out
    }
}

/// Merging two spans does not depend on their order.
pub proof fn lemma_merge_commutative(a: Loc, b: Loc)
    ensures
        a.spec_merge(b) == b.spec_merge(a),
{
}

/// Merging a span with itself gives the span back.
pub proof fn lemma_merge_idempotent(a: Loc)
    ensures
        a.spec_merge(a) == a,
{
}

/// Merging is associative: the covering span of three spans does not depend
/// on how they are grouped.
pub proof fn lemma_merge_associative(a: Loc, b: Loc, c: Loc)
    ensures
        a.spec_merge(b).spec_merge(c) == a.spec_merge(b.spec_merge(c)),
{
}

/// A value together with the span of the source text it came from.
#[derive(Debug, Clone, PartialEq)]
pub struct Annot<T> {
    pub value: T,
    pub loc: Loc,
}

impl<T> Annot<T> {
    pub fn new(value: T, loc: Loc) -> (r: Self)
        ensures
            r.value == value,
            r.loc == loc,
    {
        Annot { value, loc }
    }
}

} // verus!
