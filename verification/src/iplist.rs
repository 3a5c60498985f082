//! An ordered list of address/name records, with a verified canonical sort.

use vstd::prelude::*;
use vstd::relations::{sorted_by, total_ordering};
use crate::ip::{
    ip_le, ip_leq, ip_order, lemma_ip_leq_total, lemma_ip_leq_trans, lemma_ip_order_total, Ip,
    IpView,
};
use crate::addr::spec_parse_addr;
use crate::ResolveError;

verus! {

broadcast use vstd::seq_lib::group_to_multiset_ensures, vstd::multiset::group_multiset_axioms;

/// An insertion-ordered list of records; the inner vector is reachable
/// through `.0`.
#[derive(Debug)]
pub struct IpList(pub Vec<Ip>);

impl View for IpList {
    type V = Seq<IpView>;

    open spec fn view(&self) -> Seq<IpView> {
        self.0@.map_values(|x: Ip| x@)
    }
}

impl Clone for IpList {
    /// Cloning preserves the list's value.
    fn clone(&self) -> (r: Self)
        ensures
            r@ == self@,
    {
        let mut out: Vec<Ip> = Vec::new();
        let mut i: usize = 0;
        while i < self.0.len()
            invariant
                i <= self.0@.len(),
                out@.map_values(|x: Ip| x@) =~= self@.take(i as int),
            decreases self.0@.len() - i,
        {
            out.push(self.0[i].clone());
            proof {
                assert(self@.take(i as int).push(self@[i as int]) =~= self@.take(i as int + 1));
            }
            i = i + 1;
        }
        proof {
            assert(self@.take(self@.len() as int) =~= self@);
        }
        IpList(out)
    }
}

impl PartialEq for IpList {
    fn eq(&self, other: &IpList) -> (r: bool) {
        if self.0.len() != other.0.len() {
            proof {
                assert(self@.len() != other@.len());
            }
            return false;
        }
        let mut i: usize = 0;
        while i < self.0.len()
            invariant
                i <= self.0@.len(),
                self.0@.len() == other.0@.len(),
                forall|k: int| 0 <= k < i ==> self@[k] == other@[k],
            decreases self.0@.len() - i,
        {
            if !(self.0[i] == other.0[i]) {
                proof {
                    assert(!(self@[i as int] =~= other@[i as int]));
                }
                return false;
            }
            proof {
                assert(self@[i as int] =~= other@[i as int]);
            }
            i = i + 1;
        }
        proof {
            assert(self@ =~= other@);
        }
        true
    }
}

impl vstd::std_specs::cmp::PartialEqSpecImpl for IpList {
    open spec fn obeys_eq_spec() -> bool {
        true
    }

    open spec fn eq_spec(&self, other: &IpList) -> bool {
        self@ == other@
    }
}

impl Default for IpList {
    /// The default list is empty.
    fn default() -> (r: Self)
        ensures
            r@ == Seq::<IpView>::empty(),
    {
        IpList::new()
    }
}

impl IpList {
    /// The empty list.
    pub fn new() -> (r: Self)
        ensures
            r@ == Seq::<IpView>::empty(),
    {
        proof {
            assert(Seq::<Ip>::empty().map_values(|x: Ip| x@) =~= Seq::<IpView>::empty());
        }
        IpList(Vec::new())
    }

    /// Appends a record at the end.
    pub fn push(&mut self, ip: Ip)
        ensures
            final(self)@ == old(self)@.push(ip@),
    {
        let ghost before = self@;
        self.0.push(ip);
        proof {
            assert(final(self)@ =~= before.push(ip@));
        }
    }

    /// The number of records.
    pub fn len(&self) -> (n: usize)
        ensures
            n == self@.len(),
    {
        self.0.len()
    }

    /// Is the list empty?
    pub fn is_empty(&self) -> (r: bool)
        ensures
            r == (self@.len() == 0),
    {
        self.0.is_empty()
    }

    /// The record at index `i`.
    pub fn get(&self, i: usize) -> (r: &Ip)
        requires
            i < self@.len(),
        ensures
            r@ == self@[i as int],
    {
        &self.0[i]
    }

    /// Replaces the record at index `i`.
    pub fn set(&mut self, i: usize, ip: Ip)
        requires
            i < old(self)@.len(),
        ensures
            final(self)@ == old(self)@.update(i as int, ip@),
    {
        let ghost before = self@;
        self.0[i] = ip;
        proof {
            assert(final(self)@ =~= before.update(i as int, ip@));
        }
    }

    /// Hands the records out as a plain vector, consuming the list.
    pub fn into_vec(self) -> (r: Vec<Ip>)
        ensures
            r@.map_values(|x: Ip| x@) == self@,
    {
        self.0
    }

    /// A list holding one record.
    pub fn from_ip(ip: Ip) -> (r: Self)
        ensures
            r@ == seq![ip@],
    {
        let mut l = IpList::new();
        l.push(ip);
        proof {
            assert(l@ =~= seq![ip@]);
        }
        l
    }

    /// Builds a list of unresolved records from textual addresses.
    pub fn from_addrs(addrs: Vec<&str>) -> (r: Self)
        requires
            forall|i: int| 0 <= i < addrs@.len() ==> spec_parse_addr(#[trigger] addrs@[i]@) is Some,
        ensures
            r@.len() == addrs@.len(),
            forall|i: int| 0 <= i < addrs@.len() ==> spec_parse_addr(addrs@[i]@)
                == Some(#[trigger] r@[i].ip),
            forall|i: int| 0 <= i < addrs@.len() ==> #[trigger] r@[i].name == Seq::<char>::empty(),
    {
        let mut l = IpList::new();
        let mut i: usize = 0;
        while i < addrs.len()
            invariant
                i <= addrs@.len(),
                forall|k: int| 0 <= k < addrs@.len() ==> spec_parse_addr(
                    #[trigger] addrs@[k]@,
                ) is Some,
                l@.len() == i,
                forall|k: int| 0 <= k < i ==> spec_parse_addr(addrs@[k]@)
                    == Some(#[trigger] l@[k].ip),
                forall|k: int| 0 <= k < i ==> #[trigger] l@[k].name == Seq::<char>::empty(),
            decreases addrs@.len() - i,
        {
            l.push(Ip::new(addrs[i]));
            i = i + 1;
        }
        l
    }

    /// Builds a list of unresolved records from textual addresses,
    /// rejecting the whole batch when any address is malformed.
    pub fn try_from_addrs(addrs: Vec<&str>) -> (r: Result<Self, ResolveError>)
        ensures
            match r {
                Ok(l) => {
                    &&& l@.len() == addrs@.len()
                    &&& forall|i: int| 0 <= i < addrs@.len() ==> spec_parse_addr(addrs@[i]@)
                        == Some(#[trigger] l@[i].ip)
                    &&& forall|i: int| 0 <= i < addrs@.len() ==> #[trigger] l@[i].name
                        == Seq::<char>::empty()
                },
                Err(e) => {
                    &&& e == ResolveError::InvalidAddress
                    &&& exists|i: int| 0 <= i < addrs@.len() && spec_parse_addr(
                        (#[trigger] addrs@[i])@,
                    ) is None
                },
            },
    {
        let mut l = IpList::new();
        let mut i: usize = 0;
        while i < addrs.len()
            invariant
                i <= addrs@.len(),
                l@.len() == i,
                forall|k: int| 0 <= k < i ==> spec_parse_addr(addrs@[k]@)
                    == Some(#[trigger] l@[k].ip),
                forall|k: int| 0 <= k < i ==> #[trigger] l@[k].name == Seq::<char>::empty(),
            decreases addrs@.len() - i,
        {
            match Ip::try_new(addrs[i]) {
                Ok(ip) => {
                    l.push(ip);
                },
                Err(e) => {
                    proof {
                        assert(spec_parse_addr((addrs@[i as int])@) is None);
                    }
                    return Err(e);
                },
            }
            i = i + 1;
        }
        Ok(l)
    }

    /// Builds a list of pre-resolved records from address/name pairs.
    pub fn from_pairs(pairs: Vec<(&str, &str)>) -> (r: Self)
        requires
            forall|i: int| 0 <= i < pairs@.len() ==> spec_parse_addr(
                #[trigger] pairs@[i].0@,
            ) is Some,
        ensures
            r@.len() == pairs@.len(),
            forall|i: int| 0 <= i < pairs@.len() ==> spec_parse_addr(pairs@[i].0@)
                == Some(#[trigger] r@[i].ip),
            forall|i: int| 0 <= i < pairs@.len() ==> #[trigger] r@[i].name == pairs@[i].1@,
    {
        let mut l = IpList::new();
        let mut i: usize = 0;
        while i < pairs.len()
            invariant
                i <= pairs@.len(),
                forall|k: int| 0 <= k < pairs@.len() ==> spec_parse_addr(
                    #[trigger] pairs@[k].0@,
                ) is Some,
                l@.len() == i,
                forall|k: int| 0 <= k < i ==> spec_parse_addr(pairs@[k].0@)
                    == Some(#[trigger] l@[k].ip),
                forall|k: int| 0 <= k < i ==> #[trigger] l@[k].name == pairs@[k].1@,
            decreases pairs@.len() - i,
        {
            let (a, n) = pairs[i];
            l.push(Ip::from_pair(a, n));
            i = i + 1;
        }
        l
    }
}

// ---------------------------------------------------------------------------
// Sorting
// ---------------------------------------------------------------------------

/// Two sequences sorted by one total order and holding the same multiset of
/// elements are the same sequence.
pub proof fn lemma_sorted_unique<A>(s1: Seq<A>, s2: Seq<A>, leq: spec_fn(A, A) -> bool)
    requires
        total_ordering(leq),
        sorted_by(s1, leq),
        sorted_by(s2, leq),
        s1.to_multiset() == s2.to_multiset(),
    ensures
        s1 == s2,
    decreases s1.len(),
{
    s1.to_multiset_ensures();
    s2.to_multiset_ensures();
    if s1.len() == 0 {
        assert(s2.to_multiset().len() == 0);
        assert(s1 =~= s2);
    } else {
        assert(s2.len() == s1.len());
        assert(s1.to_multiset().count(s1[0]) > 0) by {
            assert(s1.contains(s1[0]));
        }
        assert(s2.contains(s1[0]));
        let j = choose|j: int| 0 <= j < s2.len() && s2[j] == s1[0];
        assert(leq(s2[0], s1[0])) by {
            if j != 0 {
                assert(leq(s2[0], s2[j]));
            }
        }
        assert(s2.to_multiset().count(s2[0]) > 0) by {
            assert(s2.contains(s2[0]));
        }
        assert(s1.contains(s2[0]));
        let k = choose|k: int| 0 <= k < s1.len() && s1[k] == s2[0];
        assert(leq(s1[0], s2[0])) by {
            if k != 0 {
                assert(leq(s1[0], s1[k]));
            }
        }
        assert(s1[0] == s2[0]);
        let t1 = s1.drop_first();
        let t2 = s2.drop_first();
        assert(t1.to_multiset() == t2.to_multiset()) by {
            assert(s1.remove(0) =~= t1);
            assert(s2.remove(0) =~= t2);
            assert(s1.remove(0).to_multiset() =~= s1.to_multiset().remove(s1[0]));
            assert(s2.remove(0).to_multiset() =~= s2.to_multiset().remove(s2[0]));
        }
        assert(sorted_by(t1, leq)) by {
            assert forall|x: int, y: int| 0 <= x < y < t1.len() implies leq(t1[x], t1[y]) by {
                assert(t1[x] == s1[x + 1]);
                assert(t1[y] == s1[y + 1]);
                assert(leq(s1[x + 1], s1[y + 1]));
            }
        }
        assert(sorted_by(t2, leq)) by {
            assert forall|x: int, y: int| 0 <= x < y < t2.len() implies leq(t2[x], t2[y]) by {
                assert(t2[x] == s2[x + 1]);
                assert(t2[y] == s2[y + 1]);
                assert(leq(s2[x + 1], s2[y + 1]));
            }
        }
        lemma_sorted_unique(t1, t2, leq);
        assert(s1 =~= seq![s1[0]] + t1);
        assert(s2 =~= seq![s2[0]] + t2);
    }
}

/// The first index whose record value is at or after `x` in the record
/// order; the length when every record comes before `x`.
fn lower_bound(v: &Vec<Ip>, x: &Ip) -> (j: usize)
    ensures
        j <= v@.len(),
        forall|k: int| 0 <= k < j ==> ip_leq((#[trigger] v@[k])@, x@),
        j < v@.len() ==> ip_leq(x@, v@[j as int]@),
{
    let mut j: usize = 0;
    while j < v.len()
        invariant
            j <= v@.len(),
            forall|k: int| 0 <= k < j ==> ip_leq((#[trigger] v@[k])@, x@),
        decreases v@.len() - j,
    {
        if ip_le(x, &v[j]) {
            return j;
        }
        proof {
            lemma_ip_leq_total(x@, v@[j as int]@);
        }
        j = j + 1;
    }
    j
}

/// Inserts `x` into a vector whose record values are sorted, keeping them
/// sorted.
fn insert_sorted(v: &mut Vec<Ip>, x: Ip)
    requires
        sorted_by(old(v)@.map_values(|e: Ip| e@), ip_order()),
    ensures
        sorted_by(final(v)@.map_values(|e: Ip| e@), ip_order()),
        final(v)@.map_values(|e: Ip| e@).to_multiset() == old(v)@.map_values(
            |e: Ip| e@,
        ).to_multiset().insert(x@),
{
    let ghost before = v@.map_values(|e: Ip| e@);
    let j = lower_bound(v, &x);
    v.insert(j, x);
    proof {
        let after = v@.map_values(|e: Ip| e@);
        assert(after =~= before.insert(j as int, x@));
        vstd::seq_lib::to_multiset_insert(before, j as int, x@);
        let leq = ip_order();
        assert forall|a: int, b: int| 0 <= a < b < after.len() implies leq(after[a], after[b]) by {
            if b < j {
                assert(after[a] == before[a] && after[b] == before[b]);
                assert(leq(before[a], before[b]));
            } else if a > j {
                assert(after[a] == before[a - 1] && after[b] == before[b - 1]);
                assert(leq(before[a - 1], before[b - 1]));
            } else if a < j && b == j {
                assert(after[a] == before[a] && after[b] == x@);
                assert(ip_leq(before[a], x@));
            } else if a == j && b > j {
                assert(after[a] == x@ && after[b] == before[b - 1]);
                assert(ip_leq(x@, before[j as int]));
                if b - 1 > j {
                    assert(leq(before[j as int], before[b - 1]));
                    lemma_ip_leq_trans(x@, before[j as int], before[b - 1]);
                }
            } else {
                assert(a < j && b > j);
                assert(after[a] == before[a] && after[b] == before[b - 1]);
                assert(ip_leq(before[a], x@));
                if b - 1 == j {
                    assert(ip_leq(x@, before[j as int]));
                    lemma_ip_leq_trans(before[a], x@, before[j as int]);
                } else {
                    assert(leq(before[a], before[b - 1]));
                }
            }
        }
    }
}

impl IpList {
    /// Sorts the records by address, then by name, into the one canonical
    /// order: the result is exactly `sort_by` of the old value under the
    /// record order.
    pub fn sort(&mut self)
        ensures
            final(self)@ == old(self)@.sort_by(ip_order()),
    {
        proof {
            lemma_ip_order_total();
        }
        let ghost orig = self@;
        let mut out: Vec<Ip> = Vec::new();
        let mut i: usize = 0;
        proof {
            assert(Seq::<Ip>::empty().map_values(|e: Ip| e@) =~= Seq::<IpView>::empty());
            assert(orig.take(0) =~= Seq::<IpView>::empty());
            assert(Seq::<IpView>::empty().to_multiset() =~= Seq::<IpView>::empty().to_multiset());
        }
        while i < self.0.len()
            invariant
                i <= self.0@.len(),
                orig == self@,
                sorted_by(out@.map_values(|e: Ip| e@), ip_order()),
                out@.map_values(|e: Ip| e@).to_multiset() == orig.take(i as int).to_multiset(),
            decreases self.0@.len() - i,
        {
            let x = self.0[i].clone();
            proof {
                assert(x@ == orig[i as int]);
                assert(orig.take(i as int).push(orig[i as int]) =~= orig.take(i as int + 1));
            }
            insert_sorted(&mut out, x);
            i = i + 1;
        }
        proof {
            assert(orig.take(orig.len() as int) =~= orig);
        }
        self.0 = out;
        proof {
            orig.lemma_sort_by_ensures(ip_order());
            lemma_sorted_unique(final(self)@, orig.sort_by(ip_order()), ip_order());
        }
    }
}

} // verus!
