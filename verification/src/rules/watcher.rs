//! Deciding whether a reload changed anything: the watched files of two
//! rule sets are compared as sets with repetitions (their order does not
//! matter, as after sorting both).
use vstd::multiset::Multiset;
use vstd::prelude::*;

use crate::rules::adblock::RuleSet;

verus! {

broadcast use vstd::multiset::group_multiset_axioms;

/// The (path, hash) pairs as char sequences.
pub open spec fn file_pairs(fs: Seq<(String, String)>) -> Seq<(Seq<char>, Seq<char>)> {
    fs.map_values(|f: (String, String)| (f.0@, f.1@))
}

/// The watched files as a multiset of (path, hash) pairs.
pub open spec fn file_multiset(fs: Seq<(String, String)>) -> Multiset<(Seq<char>, Seq<char>)> {
    file_pairs(fs).to_multiset()
}

fn same_pair(a: &(String, String), b: &(String, String)) -> (r: bool)
    ensures
        r == ((a.0@, a.1@) == (b.0@, b.1@)),
{
    a.0 == b.0 && a.1 == b.1
}

proof fn lemma_pairs_push(fs: Seq<(String, String)>, f: (String, String))
    ensures
        file_pairs(fs.push(f)) == file_pairs(fs).push((f.0@, f.1@)),
{
    assert(file_pairs(fs.push(f)) =~= file_pairs(fs).push((f.0@, f.1@)));
}

proof fn lemma_pairs_remove(fs: Seq<(String, String)>, j: int)
    requires
        0 <= j < fs.len(),
    ensures
        file_pairs(fs.remove(j)) == file_pairs(fs).remove(j),
{
    assert(file_pairs(fs.remove(j)) =~= file_pairs(fs).remove(j));
}

/// Whether two lists of watched files hold the same (path, hash) pairs the
/// same number of times, in any order.
pub fn same_file_set(a: &Vec<(String, String)>, b: &Vec<(String, String)>) -> (r: bool)
    ensures
        r == (file_multiset(a@) == file_multiset(b@)),
{
    broadcast use vstd::seq_lib::group_to_multiset_ensures;

    let ghost pa = file_pairs(a@);
    let ghost pb = file_pairs(b@);
    let mut rest: Vec<(String, String)> = Vec::new();
    let mut k: usize = 0;
    while k < b.len()
        invariant
            k <= b@.len(),
            file_pairs(rest@) == pb.take(k as int),
            pb == file_pairs(b@),
        decreases b@.len() - k,
    {
        let ghost before = rest@;
        let item = (b[k].0.clone(), b[k].1.clone());
        rest.push(item);
        proof {
            lemma_pairs_push(before, item);
            assert(pb.take(k + 1) =~= pb.take(k as int).push(pb[k as int]));
        }
        k += 1;
    }
    assert(pb.take(b@.len() as int) =~= pb);
    let mut i: usize = 0;
    proof {
        assert(pa.take(0) =~= Seq::<(Seq<char>, Seq<char>)>::empty());
        assert(pa.take(0).to_multiset() =~= Multiset::<(Seq<char>, Seq<char>)>::empty());
    }
    while i < a.len()
        invariant
            i <= a@.len(),
            pa == file_pairs(a@),
            pb == file_pairs(b@),
            pa.take(i as int).to_multiset().add(file_pairs(rest@).to_multiset()) == pb.to_multiset(),
        decreases a@.len() - i,
    {
        let ghost x = pa[i as int];
        let mut j: usize = 0;
        while j < rest.len() && !same_pair(&rest[j], &a[i])
            invariant
                j <= rest@.len(),
                i < a@.len(),
                x == pa[i as int],
                pa == file_pairs(a@),
                forall|m: int| 0 <= m < j ==> #[trigger] file_pairs(rest@)[m] != x,
            decreases rest@.len() - j,
        {
            j += 1;
        }
        if j >= rest.len() {
            proof {
                let pr = file_pairs(rest@);
                assert(!pr.contains(x));
                vstd::seq_lib::to_multiset_contains(pr, x);
                assert(pr.to_multiset().count(x) == 0);
                let t = pa.take(i as int);
                assert(pb.to_multiset().count(x) == t.to_multiset().count(x));
                assert(pa.take(i + 1) =~= t.push(x));
                vstd::seq_lib::to_multiset_build(t, x);
                assert(pa =~= pa.take(i + 1) + pa.skip(i + 1));
                vstd::seq_lib::lemma_multiset_commutative(pa.take(i + 1), pa.skip(i + 1));
                assert(pa.to_multiset().count(x) >= pa.take(i + 1).to_multiset().count(x));
                assert(pa.to_multiset().count(x) > pb.to_multiset().count(x));
            }
            return false;
        }
        let ghost before = rest@;
        proof {
            assert(file_pairs(before)[j as int] == x);
            lemma_pairs_remove(before, j as int);
        }
        rest.remove(j);
        proof {
            let t = pa.take(i as int);
            assert(pa.take(i + 1) =~= t.push(x));
            vstd::seq_lib::to_multiset_remove(file_pairs(before), j as int);
            vstd::seq_lib::to_multiset_build(t, x);
            assert(file_pairs(rest@).to_multiset() =~= file_pairs(before).to_multiset().remove(x));
            assert(file_pairs(before).contains(x));
            vstd::seq_lib::to_multiset_contains(file_pairs(before), x);
            assert(file_pairs(before).to_multiset().count(x) > 0);
            assert(pa.take(i + 1).to_multiset().add(file_pairs(rest@).to_multiset()) =~= t.to_multiset().add(
                file_pairs(before).to_multiset(),
            ));
        }
        i += 1;
    }
    proof {
        assert(pa.take(a@.len() as int) =~= pa);
    }
    if rest.len() == 0 {
        proof {
            assert(file_pairs(rest@) =~= Seq::<(Seq<char>, Seq<char>)>::empty());
            assert(file_pairs(rest@).to_multiset() =~= Multiset::<(Seq<char>, Seq<char>)>::empty());
            assert(pa.to_multiset() =~= pb.to_multiset());
        }
        true
    } else {
        proof {
            assert(file_pairs(rest@).len() > 0);
            assert(pb.to_multiset().len() == pa.to_multiset().len() + file_pairs(rest@).to_multiset().len());
        }
        false
    }
}

/// What a reload does with the rules in use.
pub enum ReloadOutcome {
    /// The loaded files are the ones in use: keep the rules in use.
    Unchanged,
    /// Some file changed: put these rules in place of the ones in use.
    Replace(RuleSet),
}

/// Decide a reload: the rules in use stay when the freshly loaded rules
/// watch the same (path, hash) pairs, in any order; otherwise the loaded
/// rules replace them.
pub fn reload_decision(current: &RuleSet, loaded: RuleSet) -> (r: ReloadOutcome)
    ensures
        file_multiset(loaded.files()) == file_multiset(current.files()) ==> r is Unchanged,
        file_multiset(loaded.files()) != file_multiset(current.files()) ==> (r matches ReloadOutcome::Replace(n)
            && n == loaded),
{
    if same_file_set(loaded.watched_files(), current.watched_files()) {
        ReloadOutcome::Unchanged
    } else {
        ReloadOutcome::Replace(loaded)
    }
}

} // verus!
