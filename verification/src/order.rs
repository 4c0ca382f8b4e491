//! Lexicographic byte-string order and the `(key ascending, seqno
//! descending)` order of records inside a segment.

use crate::value::ValueView;
use vstd::prelude::*;

verus! {

/// Strict lexicographic order on byte strings.
pub open spec fn lex_lt(a: Seq<u8>, b: Seq<u8>) -> bool
    decreases a.len(),
{
    if b.len() == 0 {
        false
    } else if a.len() == 0 {
        true
    } else if a[0] < b[0] {
        true
    } else if a[0] > b[0] {
        false
    } else {
        lex_lt(a.drop_first(), b.drop_first())
    }
}

/// Non-strict lexicographic order on byte strings.
pub open spec fn key_le(a: Seq<u8>, b: Seq<u8>) -> bool {
    lex_lt(a, b) || a == b
}

/// Segment order of records: keys ascending, and for one key the newest
/// version (highest seqno) first.
pub open spec fn value_order_le(a: ValueView, b: ValueView) -> bool {
    lex_lt(a.key, b.key) || (a.key == b.key && a.seqno >= b.seqno)
}

/// A sorted run: every record is ordered before every later one.
pub open spec fn sorted_run(vs: Seq<ValueView>) -> bool {
    forall|i: int, j: int| 0 <= i < j < vs.len() ==> value_order_le(#[trigger] vs[i], #[trigger] vs[j])
}

/// Lexicographic order is irreflexive.
pub proof fn lemma_lex_lt_irrefl(a: Seq<u8>)
    ensures
        !lex_lt(a, a),
    decreases a.len(),
{
    if a.len() > 0 {
        lemma_lex_lt_irrefl(a.drop_first());
    }
}

/// Lexicographic order is transitive.
pub proof fn lemma_lex_lt_trans(a: Seq<u8>, b: Seq<u8>, c: Seq<u8>)
    requires
        lex_lt(a, b),
        lex_lt(b, c),
    ensures
        lex_lt(a, c),
    decreases a.len(),
{
    if a.len() > 0 && b.len() > 0 && c.len() > 0 && a[0] == b[0] && b[0] == c[0] {
        lemma_lex_lt_trans(a.drop_first(), b.drop_first(), c.drop_first());
    }
}

/// Any two byte strings are ordered or equal.
pub proof fn lemma_lex_trichotomy(a: Seq<u8>, b: Seq<u8>)
    ensures
        lex_lt(a, b) || lex_lt(b, a) || a == b,
    decreases a.len(),
{
    if a.len() == 0 && b.len() == 0 {
        assert(a =~= b);
    } else if a.len() > 0 && b.len() > 0 && a[0] == b[0] {
        lemma_lex_trichotomy(a.drop_first(), b.drop_first());
        if !lex_lt(a, b) && !lex_lt(b, a) {
            assert(lex_lt(a, b) == lex_lt(a.drop_first(), b.drop_first()));
            assert(lex_lt(b, a) == lex_lt(b.drop_first(), a.drop_first()));
            assert(a.drop_first() == b.drop_first());
            assert forall|i: int| 0 <= i < a.len() implies a[i] == b[i] by {
                if i > 0 {
                    assert(a.drop_first()[i - 1] == b.drop_first()[i - 1]);
                }
            }
            assert(a =~= b);
        }
    }
}

/// At most one of `lex_lt(a, b)` and `lex_lt(b, a)` holds.
pub proof fn lemma_lex_lt_asym(a: Seq<u8>, b: Seq<u8>)
    requires
        lex_lt(a, b),
    ensures
        !lex_lt(b, a),
    decreases a.len(),
{
    if a.len() > 0 && b.len() > 0 && a[0] == b[0] {
        lemma_lex_lt_asym(a.drop_first(), b.drop_first());
    }
}

/// The segment order is transitive.
pub proof fn lemma_value_order_le_trans(a: ValueView, b: ValueView, c: ValueView)
    requires
        value_order_le(a, b),
        value_order_le(b, c),
    ensures
        value_order_le(a, c),
{
    if lex_lt(a.key, b.key) && lex_lt(b.key, c.key) {
        lemma_lex_lt_trans(a.key, b.key, c.key);
    }
}

/// Extending a sorted run with a record ordered after its last record keeps
/// it sorted.
pub proof fn lemma_sorted_run_push(vs: Seq<ValueView>, w: ValueView)
    requires
        sorted_run(vs),
        vs.len() > 0 ==> value_order_le(vs.last(), w),
    ensures
        sorted_run(vs.push(w)),
{
    let vs2 = vs.push(w);
    assert forall|i: int, j: int| 0 <= i < j < vs2.len() implies value_order_le(
        #[trigger] vs2[i],
        #[trigger] vs2[j],
    ) by {
        if j < vs.len() {
            assert(vs2[i] == vs[i] && vs2[j] == vs[j]);
        } else {
            assert(vs2[j] == w);
            if i < vs.len() - 1 {
                assert(value_order_le(vs[i], vs.last()));
                lemma_value_order_le_trans(vs[i], vs.last(), w);
            }
        }
    }
}

/// Compares two byte strings in lexicographic order.
pub fn key_lt(a: &Vec<u8>, b: &Vec<u8>) -> (r: bool)
    ensures
        r == lex_lt(a@, b@),
    decreases a@.len(),
{
    let al = a.len();
    let bl = b.len();
    let mut i: usize = 0;
    proof {
        assert(a@.skip(0) =~= a@);
        assert(b@.skip(0) =~= b@);
    }
    loop
        invariant
            0 <= i <= al,
            i <= bl,
            al == a@.len(),
            bl == b@.len(),
            lex_lt(a@, b@) == lex_lt(a@.skip(i as int), b@.skip(i as int)),
        decreases al - i,
    {
        if i == bl {
            proof {
                assert(b@.skip(i as int).len() == 0);
            }
            return false;
        }
        if i == al {
            proof {
                assert(a@.skip(i as int).len() == 0);
                assert(b@.skip(i as int).len() > 0);
            }
            return true;
        }
        let x = a[i];
        let y = b[i];
        proof {
            assert(a@.skip(i as int)[0] == a@[i as int]);
            assert(b@.skip(i as int)[0] == b@[i as int]);
        }
        if x < y {
            return true;
        }
        if x > y {
            return false;
        }
        proof {
            assert(a@.skip(i as int).drop_first() =~= a@.skip(i + 1));
            assert(b@.skip(i as int).drop_first() =~= b@.skip(i + 1));
        }
        i += 1;
    }
}

} // verus!
