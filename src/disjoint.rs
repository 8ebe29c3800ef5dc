//! Several exclusive references into one slice at once.
use vstd::prelude::*;

verus! {

/// The position within `picks` that names slot `i` (meaningful when some does).
pub open spec fn pick_of(picks: Seq<usize>, i: int) -> int {
    choose|j: int| 0 <= j < picks.len() && picks[j] == i
}

/// Exclusive references to the items at the distinct positions `picks`, in the
/// order of `picks`. Items not picked are left as they are.
pub fn pick_disjoint_mut<'a, T>(items: &'a mut [T], picks: &Vec<usize>) -> (r: Vec<&'a mut T>)
    requires
        picks@.no_duplicates(),
        forall|j: int| 0 <= j < picks@.len() ==> picks@[j] < old(items)@.len(),
    ensures
        r@.len() == picks@.len(),
        forall|j: int| 0 <= j < picks@.len() ==> *r@[j] == old(items)@[picks@[j] as int],
        final(items)@.len() == old(items)@.len(),
        forall|j: int|
            0 <= j < picks@.len() ==> final(items)@[picks@[j] as int] == *final(r@[j]),
        forall|i: int|
            0 <= i < old(items)@.len() && !picks@.contains(i as usize) ==> final(items)@[i]
                == old(items)@[i],
{
    let ghost orig = old(items)@;
    let total = items.len();
    let ghost n = total as nat;
    let ghost fin = final(items)@;
    let mut out: Vec<Option<&'a mut T>> = Vec::new();
    let mut k: usize = 0;
    while k < picks.len()
        invariant
            k <= picks@.len(),
            out@.len() == k,
            forall|j: int| 0 <= j < k ==> out@[j] is None,
        decreases picks@.len() - k,
    {
        out.push(None);
        k = k + 1;
    }
    let mut rest: &'a mut [T] = items;
    let mut pos: usize = 0;
    while rest.len() > 0
        invariant
            pos + rest@.len() == total,
            n == total,
            orig.len() == n,
            rest@ == orig.subrange(pos as int, n as int),
            out@.len() == picks@.len(),
            picks@.no_duplicates(),
            forall|j: int| 0 <= j < picks@.len() ==> picks@[j] < n,
            forall|j: int| 0 <= j < picks@.len() ==> (out@[j] is Some <==> picks@[j] < pos),
            forall|j: int|
                0 <= j < picks@.len() && out@[j] is Some ==> *out@[j]->Some_0
                    == orig[picks@[j] as int],
            fin.len() == pos + final(rest)@.len(),
            forall|i: int|
                0 <= i < final(rest)@.len() ==> fin[pos + i] == final(rest)@[i],
            forall|i: int|
                0 <= i < pos && !picks@.contains(i as usize) ==> fin[i] == orig[i],
            forall|j: int|
                0 <= j < picks@.len() && picks@[j] < pos ==> fin[picks@[j] as int]
                    == *final(out@[j]->Some_0),
        decreases rest@.len(),
    {
        let ghost fr = final(rest)@;
        assert(forall|k: int| 0 <= k < fr.len() ==> fin[pos + k] == fr[k]);
        let (head, tail) = rest.split_at_mut(1);
        assert(fr == final(head)@ + final(tail)@);
        let ghost fh = final(head)@;
        let h = head.first_mut().unwrap();
        assert(fh.len() == 1);
        assert(fh[0] == *final(h));
        let mut j: usize = 0;
        let mut found = false;
        while j < picks.len() && !found
            invariant
                j <= picks@.len(),
                found ==> j < picks@.len() && picks@[j as int] == pos,
                !found ==> forall|t: int| 0 <= t < j ==> picks@[t] != pos,
            decreases picks@.len() - j + (if found { 0int } else { 1int }),
        {
            if picks[j] == pos {
                found = true;
            } else {
                j = j + 1;
            }
        }
        let ghost ft = final(tail)@;
        if found {
            out.set(j, Some(h));
        }
        rest = tail;
        assert(final(rest)@ == ft);
        assert(fin[pos as int] == *final(h)) by {
            assert(fr[0] == fh[0]);
        }
        assert forall|i: int| 0 <= i < ft.len() implies fin[pos + 1 + i] == ft[i] by {
            assert(fr[1 + i] == ft[i]);
            assert(fin[pos + (1 + i)] == fr[1 + i]);
        }
        pos = pos + 1;
    }
    assert(rest@.len() == 0);
    assert(pos == total);
    assert forall|j: int| 0 <= j < picks@.len() implies out@[j] is Some by {
        assert(picks@[j] < n);
    }
    let _ = rest.first_mut();
    assert(fin.len() == n);
    let ghost full = out@;
    let mut r: Vec<&'a mut T> = Vec::new();
    while out.len() > 0
        invariant
            r@.len() + out@.len() == full.len(),
            out@ == full.subrange(r@.len() as int, full.len() as int),
            forall|j: int| 0 <= j < full.len() ==> full[j] is Some,
            forall|j: int|
                0 <= j < r@.len() ==> *r@[j] == *full[j]->Some_0
                    && *final(r@[j]) == *final(full[j]->Some_0),
        decreases out@.len(),
    {
        let o = out.remove(0);
        match o {
            Some(x) => r.push(x),
            None => {},
        }
    }
    assert(r@.len() == full.len());
    r
}

} // verus!
