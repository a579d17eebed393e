use vstd::prelude::*;
use vstd::std_specs::iter::IteratorSpec;

verus! {

/// How two paths stand to each other in the lexicographic order of their
/// characters.
#[derive(Clone, Copy, Debug, PartialEq, Eq, Structural)]
pub enum PathOrder {
    Before,
    Same,
    After,
}

/// Strict lexicographic order on character sequences: characters are compared
/// by code point, and a proper prefix comes before the sequences it starts.
pub open spec fn path_less(a: Seq<char>, b: Seq<char>) -> bool
    decreases a.len(),
{
    if b.len() == 0 {
        false
    } else if a.len() == 0 {
        true
    } else if a[0] != b[0] {
        a[0] < b[0]
    } else {
        path_less(a.drop_first(), b.drop_first())
    }
}

/// No path comes before itself.
pub proof fn lemma_path_less_irreflexive(a: Seq<char>)
    ensures
        !path_less(a, a),
    decreases a.len(),
{
    if a.len() > 0 {
        lemma_path_less_irreflexive(a.drop_first());
    }
}

/// Of two paths at most one comes before the other.
pub proof fn lemma_path_less_asymmetric(a: Seq<char>, b: Seq<char>)
    requires
        path_less(a, b),
    ensures
        !path_less(b, a),
    decreases a.len(),
{
    if a.len() > 0 && b.len() > 0 && a[0] == b[0] {
        lemma_path_less_asymmetric(a.drop_first(), b.drop_first());
    }
}

/// The order is transitive.
pub proof fn lemma_path_less_transitive(a: Seq<char>, b: Seq<char>, c: Seq<char>)
    requires
        path_less(a, b),
        path_less(b, c),
    ensures
        path_less(a, c),
    decreases a.len(),
{
    if a.len() > 0 && b.len() > 0 && c.len() > 0 && a[0] == b[0] && b[0] == c[0] {
        lemma_path_less_transitive(a.drop_first(), b.drop_first(), c.drop_first());
    }
}

/// Two different paths are always ordered, one way or the other.
pub proof fn lemma_path_less_connected(a: Seq<char>, b: Seq<char>)
    ensures
        a == b || path_less(a, b) || path_less(b, a),
    decreases a.len(),
{
    if a.len() == 0 || b.len() == 0 {
        if a.len() == 0 && b.len() == 0 {
            assert(a =~= b);
        }
    } else if a[0] == b[0] {
        lemma_path_less_connected(a.drop_first(), b.drop_first());
        if a.drop_first() == b.drop_first() {
            assert(a =~= seq![a[0]] + a.drop_first());
            assert(b =~= seq![b[0]] + b.drop_first());
        }
    }
}

/// Compares two paths character by character, by code point.
pub fn compare_paths(a: &str, b: &str) -> (r: PathOrder)
    ensures
        r == PathOrder::Before <==> path_less(a@, b@),
        r == PathOrder::Same <==> a@ == b@,
        r == PathOrder::After <==> path_less(b@, a@),
{
    let mut left = a.chars();
    let mut right = b.chars();
    loop
        invariant
            path_less(a@, b@) == path_less(left.remaining(), right.remaining()),
            path_less(b@, a@) == path_less(right.remaining(), left.remaining()),
            (a@ == b@) == (left.remaining() == right.remaining()),
            left.decrease() is Some,
        decreases left.decrease()->0,
    {
        let ghost before_left = left.remaining();
        let ghost before_right = right.remaining();
        let x = left.next();
        let y = right.next();
        assert(before_left.len() > 0 ==> before_left =~= seq![before_left[0]]
            + before_left.drop_first());
        assert(before_right.len() > 0 ==> before_right =~= seq![before_right[0]]
            + before_right.drop_first());
        assert(before_left.len() == 0 && before_right.len() == 0 ==> before_left =~= before_right);
        match (x, y) {
            (None, None) => { return PathOrder::Same; },
            (None, Some(_)) => { return PathOrder::Before; },
            (Some(_), None) => { return PathOrder::After; },
            (Some(c), Some(d)) => {
                if c != d {
                    if c < d {
                        return PathOrder::Before;
                    } else {
                        return PathOrder::After;
                    }
                }
            },
        }
    }
}

} // verus!
