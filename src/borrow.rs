//! Borrow declarations: which component or resource tables a parameter list
//! locks, and how.
use vstd::prelude::*;

verus! {

/// How a table is locked: shared by any number of readers, or by one writer.
#[derive(Clone, Copy, Debug, PartialEq, Eq, Structural, Hash)]
pub enum BorrowType {
    Immutable,
    Mutable,
}

/// One declared lock: the table's type key and the mode it is locked in.
#[derive(Clone, Copy, Debug, PartialEq, Eq, Structural, Hash)]
pub struct Borrow {
    pub key: u64,
    pub kind: BorrowType,
}

/// Two locks on one table conflict unless both are shared.
pub open spec fn conflicting(a: Borrow, b: Borrow) -> bool {
    a.key == b.key && (a.kind == BorrowType::Mutable || b.kind == BorrowType::Mutable)
}

/// Whether two declarations in `list` conflict.
pub open spec fn has_conflict(list: Seq<Borrow>) -> bool {
    exists|i: int, j: int| 0 <= i < j < list.len() && conflicting(#[trigger] list[i], #[trigger] list[j])
}

impl Borrow {
    /// Whether locking `self` and `other` at once would contend.
    pub fn conflicts_with(&self, other: &Borrow) -> (r: bool)
        ensures
            r == conflicting(*self, *other),
    {
        self.key == other.key && (self.kind == BorrowType::Mutable || other.kind
            == BorrowType::Mutable)
    }
}

/// The declarations of a parameter list: those of each element, in order,
/// duplicates kept.
pub fn concat_borrows(first: &Vec<Borrow>, second: &Vec<Borrow>) -> (r: Vec<Borrow>)
    ensures
        r@ == first@ + second@,
{
    let mut r = first.clone();
    let mut k: usize = 0;
    while k < second.len()
        invariant
            k <= second@.len(),
            r@ == first@ + second@.subrange(0, k as int),
        decreases second@.len() - k,
    {
        r.push(second[k]);
        k = k + 1;
        assert(second@.subrange(0, k as int) == second@.subrange(0, k - 1).push(second@[k - 1]));
    }
    assert(second@.subrange(0, second@.len() as int) == second@);
    r
}

/// The key of the first table (in declaration order of the later lock) that
/// two declarations lock in conflicting modes, if any.
pub fn find_conflict(list: &Vec<Borrow>) -> (r: Option<u64>)
    ensures
        r is None <==> !has_conflict(list@),
        r matches Some(key) ==> exists|i: int, j: int|
            0 <= i < j < list@.len() && conflicting(list@[i], list@[j]) && list@[j].key == key,
{
    let mut j: usize = 0;
    while j < list.len()
        invariant
            j <= list@.len(),
            forall|a: int, b: int| 0 <= a < b < j ==> !conflicting(list@[a], list@[b]),
        decreases list@.len() - j,
    {
        let mut i: usize = 0;
        while i < j
            invariant
                i <= j < list@.len(),
                forall|a: int| 0 <= a < i ==> !conflicting(list@[a], list@[j as int]),
            decreases j - i,
        {
            if list[i].conflicts_with(&list[j]) {
                return Some(list[j].key);
            }
            i = i + 1;
        }
        j = j + 1;
    }
    None
}

} // verus!
