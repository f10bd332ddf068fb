use vstd::prelude::*;

verus! {

/// The final component of a path: everything after the last `/`.
/// A path that ends in `/` (or is empty) has no final component.
pub open spec fn last_component(p: Seq<char>) -> Seq<char>
    decreases p.len(),
{
    if p.len() == 0 {
        Seq::empty()
    } else if p.last() == '/' {
        Seq::empty()
    } else {
        last_component(p.drop_last()).push(p.last())
    }
}

/// The final component of a path is the suffix that starts right after the
/// last `/` (at the start of the path when there is no `/` at all).
pub proof fn lemma_last_component_skip(p: Seq<char>, k: int)
    requires
        0 <= k <= p.len(),
        forall|j: int| k <= j < p.len() ==> p[j] != '/',
        k == 0 || p[k - 1] == '/',
    ensures
        last_component(p) == p.skip(k),
    decreases p.len(),
{
    if k == p.len() {
        if p.len() == 0 {
            assert(p.skip(k) =~= Seq::<char>::empty());
        } else {
            assert(p.last() == p[k - 1]);
            assert(p.skip(k) =~= Seq::<char>::empty());
        }
    } else {
        let q = p.drop_last();
        lemma_last_component_skip(q, k);
        assert(last_component(p) =~= q.skip(k).push(p.last()));
        assert(p.skip(k) =~= q.skip(k).push(p.last()));
    }
}

/// The short name a repository is recorded under: the final component of its
/// filesystem path.
pub fn short_name_of(path: &str) -> (r: String)
    ensures
        r@ == last_component(path@),
{
    let n: usize = path.unicode_len();
    let mut start: usize = 0;
    let mut i: usize = 0;
    while i < n
        invariant
            n == path@.len(),
            start <= i <= n,
            start == 0 || path@[start - 1] == '/',
            forall|j: int| start <= j < i ==> path@[j] != '/',
        decreases n - i,
    {
        if path.get_char(i) == '/' {
            start = i + 1;
        }
        i += 1;
    }
    proof {
        lemma_last_component_skip(path@, start as int);
    }
    let mut r = String::new();
    let mut j: usize = start;
    while j < n
        invariant
            n == path@.len(),
            start <= j <= n,
            r@ == path@.subrange(start as int, j as int),
        decreases n - j,
    {
        let piece = path.substring_char(j, j + 1);
        r.append(piece);
        proof {
            assert(path@.subrange(start as int, j as int) + path@.subrange(
                j as int,
                j + 1 as int,
            ) =~= path@.subrange(start as int, j + 1 as int));
        }
        j += 1;
    }
    proof {
        assert(path@.skip(start as int) =~= path@.subrange(start as int, n as int));
    }
    r
}

} // verus!
