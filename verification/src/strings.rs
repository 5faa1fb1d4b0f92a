//! Lists of strings seen as sequences of character sequences.
use vstd::prelude::*;

verus! {

/// The characters of each string of a list.
pub open spec fn strings(v: Seq<String>) -> Seq<Seq<char>> {
    v.map_values(|s: String| s@)
}

/// A copy of a list of strings.
pub fn copy_strings(v: &Vec<String>) -> (r: Vec<String>)
    ensures
        strings(r@) == strings(v@),
{
    let mut r: Vec<String> = Vec::new();
    let mut i: usize = 0;
    while i < v.len()
        invariant
            0 <= i <= v@.len(),
            strings(r@) =~= strings(v@).take(i as int),
        decreases v@.len() - i,
    {
        let ghost prev = r@;
        r.push(v[i].clone());
        proof {
            assert(strings(r@) =~= strings(prev).push(v@[i as int]@));
            assert(strings(v@).take(i + 1) =~= strings(v@).take(i as int).push(v@[i as int]@));
        }
        i = i + 1;
    }
    proof {
        assert(strings(v@).take(v@.len() as int) =~= strings(v@));
    }
    r
}

/// The index of the first occurrence of `x` in `v`, if any.
pub fn find_string(v: &Vec<String>, x: &String) -> (r: Option<usize>)
    ensures
        r matches Some(i) ==> i < v@.len() && strings(v@)[i as int] == x@ && forall|j: int|
            0 <= j < i ==> strings(v@)[j] != x@,
        r is None ==> !strings(v@).contains(x@),
{
    let mut i: usize = 0;
    while i < v.len()
        invariant
            0 <= i <= v@.len(),
            forall|j: int| 0 <= j < i ==> strings(v@)[j] != x@,
        decreases v@.len() - i,
    {
        if v[i] == *x {
            return Some(i);
        }
        i = i + 1;
    }
    None
}

} // verus!
