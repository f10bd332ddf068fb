use vstd::prelude::*;

use crate::discovery::RepositoryRecord;
use vstd::multiset::Multiset;
use vstd::seq_lib::lemma_multiset_commutative;

verus! {

/// Lexicographic order on names, by code point — the order in which the
/// selector is shown the discovered names, so that the presentation is
/// deterministic whatever order discovery produced them in.
pub open spec fn lex_le(a: Seq<char>, b: Seq<char>) -> bool
    decreases a.len(),
{
    if a.len() == 0 {
        true
    } else if b.len() == 0 {
        false
    } else if a.first() == b.first() {
        lex_le(a.drop_first(), b.drop_first())
    } else {
        (a.first() as int) < (b.first() as int)
    }
}

/// The order is total: of any two names, one comes no later than the other.
pub proof fn lemma_lex_total(a: Seq<char>, b: Seq<char>)
    ensures
        lex_le(a, b) || lex_le(b, a),
    decreases a.len(),
{
    if a.len() == 0 {
    } else if b.len() == 0 {
    } else if a.first() == b.first() {
        lemma_lex_total(a.drop_first(), b.drop_first());
    }
}

/// The order is transitive.
pub proof fn lemma_lex_trans(a: Seq<char>, b: Seq<char>, c: Seq<char>)
    requires
        lex_le(a, b),
        lex_le(b, c),
    ensures
        lex_le(a, c),
    decreases a.len(),
{
    if a.len() == 0 {
    } else if b.len() == 0 {
        assert(false);
    } else if c.len() == 0 {
        assert(false);
    } else {
        if a.first() == b.first() && b.first() == c.first() {
            lemma_lex_trans(a.drop_first(), b.drop_first(), c.drop_first());
        }
    }
}

/// Whether `a` comes no later than `b` in the presentation order.
pub fn str_lex_le(a: &str, b: &str) -> (r: bool)
    ensures
        r == lex_le(a@, b@),
{
    let na: usize = a.unicode_len();
    let nb: usize = b.unicode_len();
    let mut i: usize = 0;
    proof {
        assert(a@.skip(0) =~= a@);
        assert(b@.skip(0) =~= b@);
    }
    loop
        invariant
            na == a@.len(),
            nb == b@.len(),
            i <= na,
            i <= nb,
            forall|t: int| 0 <= t < i ==> a@[t] == b@[t],
            lex_le(a@, b@) == lex_le(a@.skip(i as int), b@.skip(i as int)),
        decreases na - i,
    {
        if i == na || i == nb {
            proof {
                if i == na {
                    assert(a@.skip(i as int).len() == 0);
                } else {
                    assert(b@.skip(i as int).len() == 0);
                    assert(a@.skip(i as int).len() > 0);
                }
            }
            return i == na;
        }
        let ca = a.get_char(i);
        let cb = b.get_char(i);
        proof {
            assert(a@.skip(i as int).first() == a@[i as int]);
            assert(b@.skip(i as int).first() == b@[i as int]);
        }
        if ca != cb {
            proof {
                assert(lex_le(a@.skip(i as int), b@.skip(i as int)) == ((a@[i as int] as int)
                    < (b@[i as int] as int)));
            }
            return (ca as u32) < (cb as u32);
        }
        proof {
            assert(a@.skip(i as int).drop_first() =~= a@.skip(i + 1 as int));
            assert(b@.skip(i as int).drop_first() =~= b@.skip(i + 1 as int));
        }
        i += 1;
    }
}

/// A sequence of names in presentation order.
pub open spec fn sorted_by_name(s: Seq<String>) -> bool {
    forall|i: int, j: int| 0 <= i < j < s.len() ==> lex_le(#[trigger] s[i]@, #[trigger] s[j]@)
}

/// The place where `name` belongs in the sorted sequence: everything before
/// it comes no later than `name`.
fn find_insert_pos(r: &Vec<String>, name: &String) -> (pos: usize)
    ensures
        pos <= r@.len(),
        forall|t: int| 0 <= t < pos ==> lex_le(#[trigger] r@[t]@, name@),
        pos < r@.len() ==> !lex_le(r@[pos as int]@, name@),
{
    let n: usize = r.len();
    let mut i: usize = 0;
    while i < n
        invariant
            n == r@.len(),
            i <= n,
            forall|t: int| 0 <= t < i ==> lex_le(#[trigger] r@[t]@, name@),
        decreases n - i,
    {
        if !str_lex_le(r[i].as_str(), name.as_str()) {
            return i;
        }
        i += 1;
    }
    i
}

/// Put `name` where it belongs, keeping the sequence sorted: the result
/// holds exactly the old names plus `name`.
fn insert_sorted(r: &mut Vec<String>, name: String)
    requires
        sorted_by_name(old(r)@),
    ensures
        sorted_by_name(final(r)@),
        final(r)@.len() == old(r)@.len() + 1,
        final(r)@.to_multiset() == old(r)@.to_multiset().insert(name),
{
    let pos = find_insert_pos(r, &name);
    proof {
        if pos < r@.len() {
            lemma_lex_total(r@[pos as int]@, name@);
        }
    }
    r.insert(pos, name);
    proof {
        let pre = old(r)@;
        let p = pos as int;
        let new = r@;
        assert forall|i: int, j: int| 0 <= i < j < new.len() implies lex_le(
            #[trigger] new[i]@,
            #[trigger] new[j]@,
        ) by {
            if j < p {
                assert(new[i] == pre[i] && new[j] == pre[j]);
            } else if i < p && j == p {
                assert(new[i] == pre[i]);
            } else if i == p && j > p {
                assert(new[j] == pre[j - 1]);
                assert(p <= j - 1);
                if p < j - 1 {
                    assert(lex_le(pre[p]@, pre[j - 1]@));
                    lemma_lex_trans(new[i]@, pre[p]@, pre[j - 1]@);
                } else {
                    assert(pre[j - 1] == pre[p]);
                }
            } else if i < p && j > p {
                assert(new[i] == pre[i] && new[j] == pre[j - 1]);
                if i == j - 1 {
                    assert(i >= p);
                    assert(false);
                }
                assert(lex_le(pre[i]@, pre[j - 1]@));
            } else {
                assert(i > p && j > p);
                assert(new[i] == pre[i - 1] && new[j] == pre[j - 1]);
                assert(lex_le(pre[i - 1]@, pre[j - 1]@));
            }
        }
        let a = pre.subrange(0, p);
        let b = pre.subrange(p, pre.len() as int);
        broadcast use vstd::seq_lib::group_to_multiset_ensures;
        broadcast use vstd::multiset::group_multiset_axioms;

        assert(new == a.push(name) + b);
        lemma_multiset_commutative(a.push(name), b);
        lemma_multiset_commutative(a, b);
        assert(pre =~= a + b);
        assert(new.to_multiset() =~= pre.to_multiset().insert(name));
    }
}

/// The discovered names, sorted for presentation to the selector: exactly the
/// names the records carry, in lexicographic order, so that the list shown
/// does not depend on the order of discovery.
pub fn sorted_names(records: &Vec<RepositoryRecord>) -> (r: Vec<String>)
    ensures
        r@.len() == records@.len(),
        sorted_by_name(r@),
        r@.to_multiset() == records@.map_values(
            |rec: RepositoryRecord| rec.short_name,
        ).to_multiset(),
{
    let ghost names = records@.map_values(|rec: RepositoryRecord| rec.short_name);
    let n: usize = records.len();
    let mut r: Vec<String> = Vec::new();
    let mut idx: usize = 0;
    proof {
        broadcast use vstd::seq_lib::group_to_multiset_ensures;

        assert(names.take(0) =~= Seq::<String>::empty());
        assert(Seq::<String>::empty().to_multiset() =~= Multiset::<String>::empty());
    }
    while idx < n
        invariant
            n == records@.len(),
            names == records@.map_values(|rec: RepositoryRecord| rec.short_name),
            idx <= n,
            r@.len() == idx,
            sorted_by_name(r@),
            r@.to_multiset() == names.take(idx as int).to_multiset(),
        decreases n - idx,
    {
        let name = records[idx].short_name.clone();
        let ghost before = r@;
        insert_sorted(&mut r, name);
        proof {
            broadcast use vstd::seq_lib::group_to_multiset_ensures;

            assert(names.take(idx + 1 as int) =~= names.take(idx as int).push(
                names[idx as int],
            ));
            assert(names[idx as int] == records@[idx as int].short_name);
            assert(r@.to_multiset() =~= names.take(idx + 1 as int).to_multiset());
        }
        idx += 1;
    }
    proof {
        assert(names.take(n as int) =~= names);
    }
    r
}

} // verus!
