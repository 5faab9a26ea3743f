use vstd::prelude::*;

use crate::errors::NpmError;
use crate::package::{
    NpmResolutionPackage, id_le, id_le_exec, same_id, lemma_id_le_total, lemma_id_le_transitive,
    lemma_id_le_antisymmetric,
};

verus! {

broadcast use vstd::seq_lib::group_to_multiset_ensures, vstd::multiset::group_multiset_axioms;

/// A package list is sorted when identities never decrease along it.
pub open spec fn sorted_by_id(s: Seq<NpmResolutionPackage>) -> bool {
    forall|i: int, j: int| 0 <= i < j < s.len() ==> #[trigger] id_le(s[i].id, s[j].id)
}

/// No two entries of the list share a (name, version) identity.
pub open spec fn distinct_ids(s: Seq<NpmResolutionPackage>) -> bool {
    forall|i: int, j: int|
        0 <= i < s.len() && 0 <= j < s.len() && i != j ==> !#[trigger] same_id(
            s[i].id,
            s[j].id,
        )
}

proof fn lemma_insert_to_multiset(s: Seq<NpmResolutionPackage>, i: int, x: NpmResolutionPackage)
    requires
        0 <= i <= s.len(),
    ensures
        s.insert(i, x).to_multiset() == s.to_multiset().insert(x),
{
    let s2 = s.insert(i, x);
    s.insert_ensures(i, x);
    assert(s2.remove(i) =~= s);
    assert(s2[i] == x);
    assert(s2.remove(i).to_multiset() == s2.to_multiset().remove(x));
    assert(s2.contains(x));
    assert(s2.to_multiset().count(x) > 0);
    assert(s2.to_multiset() =~= s.to_multiset().insert(x));
}

/// Sorts a resolution package list by package identity, using the stable
/// total order on (name, version).
pub fn sort_packages_by_id(packages: Vec<NpmResolutionPackage>) -> (r: Vec<NpmResolutionPackage>)
    ensures
        sorted_by_id(r@),
        r@.to_multiset() == packages@.to_multiset(),
{
    let ghost orig = packages@;
    let mut input = packages;
    let mut out: Vec<NpmResolutionPackage> = Vec::new();
    proof {
        assert(out@.to_multiset().add(input@.to_multiset()) =~= orig.to_multiset());
    }
    while input.len() != 0
        invariant
            sorted_by_id(out@),
            out@.to_multiset().add(input@.to_multiset()) == orig.to_multiset(),
        decreases input@.len(),
    {
        let ghost input_before = input@;
        let x = input.remove(0);
        proof {
            assert(input@ == input_before.remove(0));
            assert(input_before.contains(x));
        }
        let mut j: usize = out.len();
        while j > 0 && !id_le_exec(&out[j - 1].id, &x.id)
            invariant
                0 <= j <= out@.len(),
                sorted_by_id(out@),
                forall|k: int| j <= k < out@.len() ==> id_le(x.id, #[trigger] out@[k].id),
            decreases j,
        {
            proof {
                lemma_id_le_total(out@[j - 1].id, x.id);
            }
            j = j - 1;
        }
        let ghost out_before = out@;
        proof {
            assert(j == 0 || id_le(out@[j - 1].id, x.id));
            assert forall|k: int| 0 <= k < j implies id_le(#[trigger] out@[k].id, x.id) by {
                if k < j - 1 {
                    assert(id_le(out@[k].id, out@[j - 1].id));
                    lemma_id_le_transitive(out@[k].id, out@[j - 1].id, x.id);
                }
            }
            lemma_insert_to_multiset(out@, j as int, x);
            out_before.insert_ensures(j as int, x);
        }
        out.insert(j, x);
        proof {
            assert forall|i1: int, j1: int| 0 <= i1 < j1 < out@.len() implies #[trigger] id_le(
                out@[i1].id,
                out@[j1].id,
            ) by {
                let ji = j as int;
                if j1 < ji {
                    assert(out@[i1] == out_before[i1]);
                    assert(out@[j1] == out_before[j1]);
                } else if i1 > ji {
                    assert(out@[i1] == out_before[i1 - 1]);
                    assert(out@[j1] == out_before[j1 - 1]);
                } else if i1 < ji && j1 == ji {
                    assert(out@[i1] == out_before[i1]);
                    assert(out@[j1] == x);
                } else if i1 < ji && j1 > ji {
                    assert(out@[i1] == out_before[i1]);
                    assert(out@[j1] == out_before[j1 - 1]);
                    assert(id_le(out_before[i1].id, out_before[j1 - 1].id));
                } else if i1 == ji && j1 > ji {
                    assert(out@[i1] == x);
                    assert(out@[j1] == out_before[j1 - 1]);
                }
            }
            // multiset bookkeeping: moving x from the input to the output
            assert(out@.to_multiset() == out_before.to_multiset().insert(x));
            assert(input@.to_multiset() == input_before.to_multiset().remove(x));
            assert(input_before.to_multiset().count(x) > 0);
            assert(out@.to_multiset().add(input@.to_multiset()) =~= out_before.to_multiset().add(
                input_before.to_multiset(),
            ));
        }
    }
    proof {
        assert(out@.to_multiset().add(input@.to_multiset()) =~= out@.to_multiset());
    }
    out
}

/// The order in which the pre-fetch asks the cache to ensure each package:
/// the caller's order normally, the identity-sorted order when downloads are
/// serialized for deterministic output.
///
/// The input must consist of original installs only (copy index `0`); copies
/// of an already fetched package are the installer's concern, and handing one
/// in is a programmer error.
pub fn cache_download_order(
    packages: Vec<NpmResolutionPackage>,
    sync_download: bool,
) -> (r: Vec<NpmResolutionPackage>)
    requires
        forall|i: int| 0 <= i < packages@.len() ==> (#[trigger] packages@[i]).copy_index == 0,
    ensures
        r@.to_multiset() == packages@.to_multiset(),
        forall|i: int| 0 <= i < r@.len() ==> (#[trigger] r@[i]).copy_index == 0,
        sync_download ==> sorted_by_id(r@),
        !sync_download ==> r@ == packages@,
{
    let r = if sync_download {
        sort_packages_by_id(packages)
    } else {
        packages
    };
    proof {
        assert forall|i: int| 0 <= i < r@.len() implies (#[trigger] r@[i]).copy_index == 0 by {
            assert(r@.contains(r@[i]));
            assert(r@.to_multiset().count(r@[i]) > 0);
            assert(packages@.contains(r@[i]));
        }
    }
    r
}

proof fn lemma_count_at_two_positions(s: Seq<NpmResolutionPackage>, i: int, j: int)
    requires
        0 <= i < s.len(),
        0 <= j < s.len(),
        i != j,
        s[i] == s[j],
    ensures
        s.to_multiset().count(s[i]) >= 2,
{
    let t = s.remove(i);
    s.remove_ensures(i);
    assert(t.to_multiset() == s.to_multiset().remove(s[i]));
    let j2 = if j < i {
        j
    } else {
        j - 1
    };
    assert(t[j2] == s[j]);
    assert(t.contains(s[i]));
    assert(t.to_multiset().count(s[i]) > 0);
}

proof fn lemma_count_two_gives_two_positions(s: Seq<NpmResolutionPackage>, x: NpmResolutionPackage)
    requires
        s.to_multiset().count(x) >= 2,
    ensures
        exists|i: int, j: int|
            0 <= i < s.len() && 0 <= j < s.len() && i != j && (#[trigger] s[i]) == x && (
            #[trigger] s[j]) == x,
{
    assert(s.contains(x));
    let i = choose|i: int| 0 <= i < s.len() && s[i] == x;
    let t = s.remove(i);
    s.remove_ensures(i);
    assert(t.to_multiset() == s.to_multiset().remove(x));
    assert(t.to_multiset().count(x) >= 1);
    assert(t.contains(x));
    let j2 = choose|j2: int| 0 <= j2 < t.len() && t[j2] == x;
    let j = if j2 < i {
        j2
    } else {
        j2 + 1
    };
    assert(s[j] == t[j2]);
    assert(0 <= j < s.len() && j != i && s[i] == x && s[j] == x);
}

/// Identity distinctness depends only on which packages a list holds, not on
/// their order: it carries over to any permutation.
pub proof fn lemma_distinct_ids_permutation(a: Seq<NpmResolutionPackage>, b: Seq<NpmResolutionPackage>)
    requires
        distinct_ids(a),
        a.to_multiset() == b.to_multiset(),
    ensures
        distinct_ids(b),
{
    assert forall|i: int, j: int|
        0 <= i < b.len() && 0 <= j < b.len() && i != j implies !#[trigger] same_id(
        b[i].id,
        b[j].id,
    ) by {
        if same_id(b[i].id, b[j].id) {
            if b[i] == b[j] {
                lemma_count_at_two_positions(b, i, j);
                lemma_count_two_gives_two_positions(a, b[i]);
                let (p, q): (int, int) = choose|p: int, q: int|
                    0 <= p < a.len() && 0 <= q < a.len() && p != q && (#[trigger] a[p]) == b[i] && (
                    #[trigger] a[q]) == b[i];
                assert(!same_id(a[p].id, a[q].id));
            } else {
                assert(b.contains(b[i]));
                assert(b.contains(b[j]));
                assert(a.to_multiset().count(b[i]) > 0);
                assert(a.to_multiset().count(b[j]) > 0);
                assert(a.contains(b[i]));
                assert(a.contains(b[j]));
                let p = choose|p: int| 0 <= p < a.len() && a[p] == b[i];
                let q = choose|q: int| 0 <= q < a.len() && a[q] == b[j];
                assert(p != q);
                assert(!same_id(a[p].id, a[q].id));
            }
        }
    }
}

/// Law: a package list with pairwise-distinct identities has exactly one
/// identity-sorted arrangement, so two sorted permutations of the same
/// packages coincide position by position.
pub proof fn lemma_sorted_permutation_unique(
    s1: Seq<NpmResolutionPackage>,
    s2: Seq<NpmResolutionPackage>,
)
    requires
        sorted_by_id(s1),
        sorted_by_id(s2),
        s1.to_multiset() == s2.to_multiset(),
        distinct_ids(s1),
    ensures
        s1 == s2,
    decreases s1.len(),
{
    assert(s1.len() == s1.to_multiset().len());
    assert(s2.len() == s2.to_multiset().len());
    if s1.len() == 0 {
        assert(s1 =~= s2);
    } else {
        assert(s1.contains(s1[0]));
        assert(s2.to_multiset().count(s1[0]) > 0);
        assert(s2.contains(s1[0]));
        assert(s2.contains(s2[0]));
        assert(s1.to_multiset().count(s2[0]) > 0);
        assert(s1.contains(s2[0]));
        let j = choose|j: int| 0 <= j < s2.len() && s2[j] == s1[0];
        let k = choose|k: int| 0 <= k < s1.len() && s1[k] == s2[0];
        if j != 0 && k != 0 {
            assert(id_le(s2[0].id, s2[j].id));
            assert(id_le(s1[0].id, s1[k].id));
            lemma_id_le_antisymmetric(s1[0].id, s2[0].id);
            assert(same_id(s1[0].id, s1[k].id));
            assert(false);
        }
        assert(s1[0] == s2[0]);
        let t1 = s1.remove(0);
        let t2 = s2.remove(0);
        s1.remove_ensures(0);
        s2.remove_ensures(0);
        assert(t1.to_multiset() == s1.to_multiset().remove(s1[0]));
        assert(t2.to_multiset() == s2.to_multiset().remove(s2[0]));
        assert(t1.to_multiset() == t2.to_multiset());
        assert forall|i: int, j1: int| 0 <= i < j1 < t1.len() implies #[trigger] id_le(
            t1[i].id,
            t1[j1].id,
        ) by {
            assert(t1[i] == s1[i + 1]);
            assert(t1[j1] == s1[j1 + 1]);
            assert(id_le(s1[i + 1].id, s1[j1 + 1].id));
        }
        assert forall|i: int, j1: int| 0 <= i < j1 < t2.len() implies #[trigger] id_le(
            t2[i].id,
            t2[j1].id,
        ) by {
            assert(t2[i] == s2[i + 1]);
            assert(t2[j1] == s2[j1 + 1]);
            assert(id_le(s2[i + 1].id, s2[j1 + 1].id));
        }
        assert forall|i: int, j1: int|
            0 <= i < t1.len() && 0 <= j1 < t1.len() && i != j1 implies !#[trigger] same_id(
            t1[i].id,
            t1[j1].id,
        ) by {
            assert(t1[i] == s1[i + 1]);
            assert(t1[j1] == s1[j1 + 1]);
            assert(!same_id(s1[i + 1].id, s1[j1 + 1].id));
        }
        lemma_sorted_permutation_unique(t1, t2);
        assert forall|i: int| 0 <= i < s1.len() implies s1[i] == s2[i] by {
            if i > 0 {
                assert(t1[i - 1] == s1[i]);
                assert(t2[i - 1] == s2[i]);
            }
        }
        assert(s1 =~= s2);
    }
}

/// Law: when downloads are serialized, the sequence of cache invocations is
/// a function of which packages are handed in, not of their order. Any two
/// identity-sorted arrangements of permuted input lists with distinct
/// identities are equal.
pub proof fn lemma_serial_prefetch_deterministic(
    l1: Seq<NpmResolutionPackage>,
    l2: Seq<NpmResolutionPackage>,
    r1: Seq<NpmResolutionPackage>,
    r2: Seq<NpmResolutionPackage>,
)
    requires
        distinct_ids(l1),
        l1.to_multiset() == l2.to_multiset(),
        sorted_by_id(r1),
        r1.to_multiset() == l1.to_multiset(),
        sorted_by_id(r2),
        r2.to_multiset() == l2.to_multiset(),
    ensures
        r1 == r2,
{
    lemma_distinct_ids_permutation(l1, r1);
    lemma_sorted_permutation_unique(r1, r2);
}

/// The first error of a sequence of task results, or success when every task
/// succeeded.
pub open spec fn first_error_spec(results: Seq<Result<(), NpmError>>) -> Result<(), NpmError>
    decreases results.len(),
{
    if results.len() == 0 {
        Result::Ok(())
    } else {
        match results[0] {
            Result::Err(e) => Result::Err(e),
            Result::Ok(_) => first_error_spec(results.skip(1)),
        }
    }
}

proof fn lemma_first_error_all_ok(results: Seq<Result<(), NpmError>>)
    requires
        forall|i: int| 0 <= i < results.len() ==> (#[trigger] results[i]) is Ok,
    ensures
        first_error_spec(results) == Result::<(), NpmError>::Ok(()),
    decreases results.len(),
{
    if results.len() > 0 {
        assert(results[0] is Ok);
        assert forall|i: int| 0 <= i < results.skip(1).len() implies (#[trigger] results.skip(
            1,
        )[i]) is Ok by {
            assert(results.skip(1)[i] == results[i + 1]);
        }
        lemma_first_error_all_ok(results.skip(1));
    }
}

proof fn lemma_first_error_at(results: Seq<Result<(), NpmError>>, i: int)
    requires
        0 <= i < results.len(),
        forall|j: int| 0 <= j < i ==> (#[trigger] results[j]) is Ok,
        results[i] is Err,
    ensures
        first_error_spec(results) == results[i],
    decreases i,
{
    if i > 0 {
        assert(results[0] is Ok);
        assert forall|j: int| 0 <= j < i - 1 implies (#[trigger] results.skip(1)[j]) is Ok by {
            assert(results.skip(1)[j] == results[j + 1]);
        }
        assert(results.skip(1)[i - 1] == results[i]);
        lemma_first_error_at(results.skip(1), i - 1);
    }
}

/// Scans the task results in order and surfaces the first error; succeeds
/// exactly when every task succeeded.
pub fn collect_first_error(results: Vec<Result<(), NpmError>>) -> (r: Result<(), NpmError>)
    ensures
        r == first_error_spec(results@),
        r is Ok <==> (forall|i: int| 0 <= i < results@.len() ==> (#[trigger] results@[i]) is Ok),
{
    let n = results.len();
    let mut i: usize = 0;
    while i < n
        invariant
            0 <= i <= n,
            n == results@.len(),
            forall|j: int| 0 <= j < i ==> (#[trigger] results@[j]) is Ok,
        decreases n - i,
    {
        match &results[i] {
            Result::Err(e) => {
                proof {
                    lemma_first_error_at(results@, i as int);
                }
                return Result::Err(e.clone());
            },
            Result::Ok(_) => {},
        }
        i = i + 1;
    }
    proof {
        lemma_first_error_all_ok(results@);
    }
    Result::Ok(())
}

} // verus!
