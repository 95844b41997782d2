//! Tab labels and byte-string utilities.
//!
//! A page's tab label is derived from its backing file: the base name (the
//! part after the last `/`), or `untitled` when the page has no file.

use vstd::prelude::*;

verus! {

/// Index of the last `/` (byte `0x2F`) in `p`, or `-1` if there is none.
pub open spec fn last_slash(p: Seq<u8>) -> int
    decreases p.len(),
{
    if p.len() == 0 {
        -1
    } else if p[p.len() - 1] == 47 {
        p.len() - 1
    } else {
        last_slash(p.drop_last())
    }
}

/// The base name of path `p`: everything after the last `/`, or all of `p`
/// if it has no `/`.
pub open spec fn basename_of(p: Seq<u8>) -> Seq<u8> {
    p.subrange(last_slash(p) + 1, p.len() as int)
}

/// The label of a page with no backing file.
pub open spec fn untitled_label() -> Seq<u8> {
    seq![117u8, 110u8, 116u8, 105u8, 116u8, 108u8, 101u8, 100u8]
}

pub proof fn lemma_last_slash_bounds(p: Seq<u8>)
    ensures
        -1 <= last_slash(p) < p.len(),
        last_slash(p) >= 0 ==> p[last_slash(p)] == 47,
    decreases p.len(),
{
    if p.len() == 0 {
    } else if p[p.len() - 1] == 47 {
    } else {
        lemma_last_slash_bounds(p.drop_last());
    }
}

/// Extending a path by one byte moves the last slash to that byte exactly
/// when the byte is a `/`.
pub proof fn lemma_last_slash_step(p: Seq<u8>, i: int)
    requires
        0 <= i < p.len(),
    ensures
        last_slash(p.take(i + 1)) == if p[i] == 47 {
            i
        } else {
            last_slash(p.take(i))
        },
{
    let q = p.take(i + 1);
    assert(q[q.len() - 1] == p[i]);
    assert(q.drop_last() =~= p.take(i));
}

/// The base name of `p`, as the tab label shows it.
pub fn basename(p: &Vec<u8>) -> (r: Vec<u8>)
    ensures
        r@ == basename_of(p@),
{
    let n = p.len();
    let mut start: usize = 0;
    let mut i: usize = 0;
    assert(p@.take(0) =~= Seq::<u8>::empty());
    while i < n
        invariant
            i <= n,
            n == p@.len(),
            start as int == last_slash(p@.take(i as int)) + 1,
            start <= i,
        decreases n - i,
    {
        proof {
            lemma_last_slash_step(p@, i as int);
        }
        if p[i] == 47 {
            start = i + 1;
        }
        i = i + 1;
    }
    assert(p@.take(n as int) =~= p@);
    proof {
        lemma_last_slash_bounds(p@);
    }
    let mut r: Vec<u8> = Vec::new();
    let mut j: usize = start;
    assert(r@ =~= p@.subrange(start as int, start as int));
    while j < n
        invariant
            start <= j <= n,
            n == p@.len(),
            r@ == p@.subrange(start as int, j as int),
        decreases n - j,
    {
        r.push(p[j]);
        assert(r@ =~= p@.subrange(start as int, j as int + 1));
        j = j + 1;
    }
    r
}

/// The fixed `untitled` label, as bytes.
pub fn untitled_label_bytes() -> (r: Vec<u8>)
    ensures
        r@ == untitled_label(),
{
    let mut r: Vec<u8> = Vec::new();
    r.push(117);
    r.push(110);
    r.push(116);
    r.push(105);
    r.push(116);
    r.push(108);
    r.push(101);
    r.push(100);
    assert(r@ =~= untitled_label());
    r
}

/// Byte-for-byte equality of two byte strings; file identity is path
/// equality, decided with this.
pub fn bytes_eq(a: &Vec<u8>, b: &Vec<u8>) -> (r: bool)
    ensures
        r == (a@ == b@),
{
    if a.len() != b.len() {
        assert(a@ != b@);
        return false;
    }
    let n = a.len();
    let mut i: usize = 0;
    while i < n
        invariant
            i <= n,
            n == a@.len(),
            n == b@.len(),
            forall|k: int| 0 <= k < i ==> a@[k] == b@[k],
        decreases n - i,
    {
        if a[i] != b[i] {
            return false;
        }
        i = i + 1;
    }
    assert(a@ =~= b@);
    true
}

/// A fresh copy of a byte string.
pub fn copy_bytes(v: &Vec<u8>) -> (r: Vec<u8>)
    ensures
        r@ == v@,
{
    let n = v.len();
    let mut r: Vec<u8> = Vec::new();
    let mut i: usize = 0;
    while i < n
        invariant
            i <= n,
            n == v@.len(),
            r@ == v@.take(i as int),
        decreases n - i,
    {
        r.push(v[i]);
        assert(r@ =~= v@.take(i as int + 1));
        i = i + 1;
    }
    assert(v@.take(n as int) =~= v@);
    r
}

} // verus!
