use vstd::prelude::*;

verus! {

/// `n` spaces.
pub open spec fn spaces(n: nat) -> Seq<char> {
    Seq::new(n, |i: int| ' ')
}

/// `n` dashes.
pub open spec fn dashes(n: nat) -> Seq<char> {
    Seq::new(n, |i: int| '-')
}

/// Appends `n` copies of the one-character text `unit`.
pub fn append_repeated(out: &mut String, unit: &str, n: usize)
    requires
        unit@.len() == 1,
    ensures
        final(out)@ == old(out)@ + Seq::new(n as nat, |i: int| unit@[0]),
{
    let mut k: usize = 0;
    while k < n
        invariant
            unit@.len() == 1,
            0 <= k <= n,
            out@ == old(out)@ + Seq::new(k as nat, |i: int| unit@[0]),
        decreases n - k,
    {
        out.append(unit);
        k = k + 1;
        assert(out@ =~= old(out)@ + Seq::new(k as nat, |i: int| unit@[0]));
    }
}

} // verus!
