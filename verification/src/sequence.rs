use vstd::prelude::*;

verus! {

/// Mapping a sequence with one more element maps the element too.
pub proof fn map_values_push<A, B>(s: Seq<A>, last: A, f: spec_fn(A) -> B)
    ensures
        s.push(last).map_values(f) == s.map_values(f).push(f(last)),
{
    assert(s.push(last).map_values(f) =~= s.map_values(f).push(f(last)));
}

} // verus!
