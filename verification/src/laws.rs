//! The engine's laws, stated once and proved from the public contracts:
//! length preservation, address preservation, strategy equivalence and
//! determinism for deterministic capabilities, the fake capability's
//! constancy, and the live capability's no-PTR substitution.

use vstd::prelude::*;
use crate::addr::{addr_text, IpAddr};
use crate::ip::{ip_order, lemma_ip_order_total, live_name_of, sentinel_name, IpView};
use crate::res::{canonical_solved, deterministic, engine_post, solve_name, solved_views, ResType};

verus! {

broadcast use vstd::seq_lib::group_to_multiset_ensures;

/// The addresses of a batch, in order.
pub open spec fn addrs_of(l: Seq<IpView>) -> Seq<IpAddr> {
    l.map_values(|v: IpView| v.ip)
}

/// Mapping two sequences with equal multisets gives equal multisets.
proof fn lemma_map_to_multiset<A, B>(s1: Seq<A>, s2: Seq<A>, f: spec_fn(A) -> B)
    requires
        s1.to_multiset() == s2.to_multiset(),
    ensures
        s1.map_values(f).to_multiset() == s2.map_values(f).to_multiset(),
    decreases s1.len(),
{
    s1.to_multiset_ensures();
    s2.to_multiset_ensures();
    if s1.len() == 0 {
        assert(s2.len() == 0);
        assert(s1.map_values(f) =~= s2.map_values(f));
    } else {
        let x = s1[0];
        assert(s1.to_multiset().count(x) > 0) by {
            assert(s1.contains(x));
        }
        assert(s2.contains(x));
        let j = choose|j: int| 0 <= j < s2.len() && s2[j] == x;
        let t1 = s1.drop_first();
        let t2 = s2.remove(j);
        assert(t1.to_multiset() == t2.to_multiset()) by {
            assert(s1.remove(0) =~= t1);
            assert(s1.remove(0).to_multiset() =~= s1.to_multiset().remove(x));
            assert(s2.remove(j).to_multiset() =~= s2.to_multiset().remove(x));
        }
        lemma_map_to_multiset(t1, t2, f);
        assert(s1.map_values(f) =~= s1.map_values(f));
        assert(t1.map_values(f).insert(0, f(x)) =~= s1.map_values(f));
        vstd::seq_lib::to_multiset_insert(t1.map_values(f), 0, f(x));
        assert(t2.map_values(f).insert(j, f(x)) =~= s2.map_values(f));
        vstd::seq_lib::to_multiset_insert(t2.map_values(f), j, f(x));
    }
}

/// Length preservation: a successful resolution of a batch has exactly one
/// output record per input record, whatever capability, engine and job
/// count produced it.
pub proof fn lemma_length_preservation(l: Seq<IpView>, k: ResType, r: Seq<IpView>)
    requires
        engine_post(l, k, r),
    ensures
        r.len() == l.len(),
{
}

/// Address preservation: a successful resolution carries exactly the input
/// batch's addresses, as a multiset — none is dropped and none is
/// invented, whatever capability resolved the batch.
pub proof fn lemma_address_preservation(l: Seq<IpView>, k: ResType, r: Seq<IpView>)
    requires
        engine_post(l, k, r),
    ensures
        addrs_of(r).to_multiset() == addrs_of(l).to_multiset(),
{
    let m = choose|m: Seq<IpView>|
        crate::res::pointwise_solved(l, m, k) && r == #[trigger] m.sort_by(ip_order());
    lemma_ip_order_total();
    m.lemma_sort_by_ensures(ip_order());
    lemma_map_to_multiset(r, m, |v: IpView| v.ip);
    assert(addrs_of(m) =~= addrs_of(l));
}

/// Strategy equivalence: under a deterministic capability, any two
/// successful resolutions of the same batch — whatever engines or job
/// counts produced them — are the same list of records.  (The live
/// capability is excluded: two of its lookups for one address may answer
/// differently, so only the addresses agree there; see
/// `lemma_address_preservation`.)
pub proof fn lemma_strategy_equivalence(l: Seq<IpView>, k: ResType, r1: Seq<IpView>, r2: Seq<
    IpView,
>)
    requires
        deterministic(k),
        engine_post(l, k, r1),
        engine_post(l, k, r2),
    ensures
        r1 == r2,
{
}

/// Determinism of canonical order: under a deterministic capability the
/// result is a function of the input batch alone — byte-identical across
/// repeated calls — namely the canonical sorted resolution.
pub proof fn lemma_canonical_determinism(l: Seq<IpView>, k: ResType, r: Seq<IpView>)
    requires
        deterministic(k),
        engine_post(l, k, r),
    ensures
        r == canonical_solved(l, k),
{
}

/// Fake capability constancy: every record a successful fake resolution
/// returns carries the fixed placeholder name, for any input addresses.
pub proof fn lemma_fake_constancy(l: Seq<IpView>, r: Seq<IpView>)
    requires
        engine_post(l, ResType::Fake, r),
    ensures
        forall|i: int| 0 <= i < r.len() ==> (#[trigger] r[i]).name == sentinel_name(),
{
    let sv = solved_views(l, ResType::Fake);
    lemma_ip_order_total();
    sv.lemma_sort_by_ensures(ip_order());
    sv.to_multiset_ensures();
    r.to_multiset_ensures();
    assert forall|i: int| 0 <= i < r.len() implies (#[trigger] r[i]).name == sentinel_name() by {
        assert(r.contains(r[i]));
        assert(r.to_multiset().count(r[i]) > 0);
        assert(sv.contains(r[i]));
        let j = choose|j: int| 0 <= j < sv.len() && sv[j] == r[i];
        assert(sv[j].name == solve_name(ResType::Fake, l[j].ip));
    }
}

/// Live PTR-absence substitution: when a live lookup merely echoes the
/// address's own textual form — the shape a missing reverse record takes —
/// the reported name is the fixed sentinel, never the bare address text.
pub proof fn lemma_live_ptr_absence(a: IpAddr)
    ensures
        live_name_of(a, Ok(addr_text(a))) == sentinel_name(),
{
}

/// A successful live lookup with a real name reports that name unchanged,
/// and a failed lookup reports the failure's text: resolution failure is
/// data, not control flow.
pub proof fn lemma_live_name_kept(a: IpAddr, n: Seq<char>, e: Seq<char>)
    requires
        n != addr_text(a),
    ensures
        live_name_of(a, Ok(n)) == n,
        live_name_of(a, Err(e)) == e,
{
}

} // verus!
