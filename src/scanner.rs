use vstd::prelude::*;
use crate::address::{
    host_address,
    host_address_of,
    lemma_host_address_injective,
    lemma_lex_asymmetric,
    lemma_lex_irreflexive,
    lemma_lex_total,
    lemma_lex_transitive,
    lex_lt,
    str_less,
};

verus! {

/// Hosts of a subnet that a sweep probes: suffixes 1 to 254.
pub const HOSTS_PER_SUBNET: usize = 254;

/// The texts of a list of strings.
pub open spec fn views(v: Seq<String>) -> Seq<Seq<char>> {
    v.map_values(|s: String| s@)
}

/// Each element comes strictly before the next in string order (so none repeats).
pub open spec fn strictly_sorted(r: Seq<Seq<char>>) -> bool {
    forall|i: int, j: int| 0 <= i < j < r.len() ==> lex_lt(r[i], r[j])
}

/// `s` is the address of a host whose probe succeeded; `reachable[i]` is the
/// outcome for host `i + 1`.
pub open spec fn is_responder(prefix: Seq<char>, reachable: Seq<bool>, s: Seq<char>) -> bool {
    exists|i: int| 0 <= i < reachable.len() && reachable[i] && s == host_address(prefix, (i + 1) as nat)
}

/// The reported result of a sweep: the responders' addresses, in string order.
pub open spec fn is_scan_result(prefix: Seq<char>, reachable: Seq<bool>, r: Seq<Seq<char>>) -> bool {
    &&& strictly_sorted(r)
    &&& forall|s: Seq<char>| r.contains(s) <==> is_responder(prefix, reachable, s)
}

/// The addresses that a sweep of `prefix` probes, host 1 first.
pub fn candidate_addresses(prefix: &str) -> (r: Vec<String>)
    ensures
        r@.len() == HOSTS_PER_SUBNET,
        forall|i: int| 0 <= i < r@.len() ==> r@[i]@ == host_address(prefix@, (i + 1) as nat),
{
    let mut r: Vec<String> = Vec::new();
    let mut i: usize = 0;
    while i < HOSTS_PER_SUBNET
        invariant
            i <= HOSTS_PER_SUBNET,
            r@.len() == i,
            forall|k: int| 0 <= k < i ==> r@[k]@ == host_address(prefix@, (k + 1) as nat),
        decreases HOSTS_PER_SUBNET - i,
    {
        r.push(host_address_of(prefix, (i + 1) as u32));
        i = i + 1;
    }
    r
}

/// Puts `x` into the sorted list `r` at its place in string order.
fn insert_sorted(r: &mut Vec<String>, x: String)
    requires
        strictly_sorted(views(old(r)@)),
        !views(old(r)@).contains(x@),
    ensures
        strictly_sorted(views(final(r)@)),
        forall|s: Seq<char>| views(final(r)@).contains(s) <==> (views(old(r)@).contains(s) || s == x@),
{
    let ghost v0 = views(r@);
    let mut j: usize = 0;
    let mut found = false;
    while !found && j < r.len()
        invariant
            r@ == old(r)@,
            v0 == views(r@),
            strictly_sorted(v0),
            !v0.contains(x@),
            j <= r@.len(),
            forall|k: int| 0 <= k < j ==> lex_lt(v0[k], x@),
            found ==> j < r@.len() && lex_lt(x@, v0[j as int]),
        decreases r@.len() - j + (if found { 0int } else { 1int }),
    {
        if str_less(x.as_str(), r[j].as_str()) {
            found = true;
        } else {
            proof {
                if x@ == v0[j as int] {
                    assert(v0.contains(x@));
                }
                lemma_lex_total(x@, v0[j as int]);
            }
            j = j + 1;
        }
    }
    let ghost xv = x@;
    r.insert(j, x);
    proof {
        let v1 = views(r@);
        assert(v1 =~= v0.insert(j as int, xv));
        assert forall|a: int, b: int| 0 <= a < b < v1.len() implies lex_lt(v1[a], v1[b]) by {
            if b < j {
            } else if b == j {
            } else if a < j {
                lemma_lex_transitive(v0[a], xv, v0[j as int]);
                if b - 1 > j {
                    lemma_lex_transitive(v0[a], v0[j as int], v0[b - 1]);
                }
            } else if a == j {
                if b - 1 > j {
                    lemma_lex_transitive(xv, v0[j as int], v0[b - 1]);
                }
            } else {
            }
        }
        assert forall|s: Seq<char>| v1.contains(s) <==> (v0.contains(s) || s == xv) by {
            if v1.contains(s) {
                let k = choose|k: int| 0 <= k < v1.len() && v1[k] == s;
                if k < j {
                    assert(v0[k] == s);
                } else if k > j {
                    assert(v0[k - 1] == s);
                }
            }
            if v0.contains(s) {
                let k = choose|k: int| 0 <= k < v0.len() && v0[k] == s;
                if k < j {
                    assert(v1[k] == s);
                } else {
                    assert(v1[k + 1] == s);
                }
            }
            if s == xv {
                assert(v1[j as int] == s);
            }
        }
    }
}

/// The result of a sweep of `prefix`, given the outcome of each host's probe
/// (`reachable[i]` for host `i + 1`): the addresses of the hosts that answered,
/// each once, in string order (so "10.0.0.10" comes before "10.0.0.2").
pub fn scan_result(prefix: &str, reachable: &Vec<bool>) -> (r: Vec<String>)
    requires
        reachable@.len() == HOSTS_PER_SUBNET,
    ensures
        is_scan_result(prefix@, reachable@, views(r@)),
{
    let mut r: Vec<String> = Vec::new();
    let mut i: usize = 0;
    while i < reachable.len()
        invariant
            i <= reachable@.len() == HOSTS_PER_SUBNET,
            strictly_sorted(views(r@)),
            forall|s: Seq<char>|
                views(r@).contains(s) <==> is_responder(prefix@, reachable@.subrange(0, i as int), s),
        decreases reachable@.len() - i,
    {
        let ghost before = views(r@);
        if reachable[i] {
            let a = host_address_of(prefix, (i + 1) as u32);
            proof {
                if before.contains(a@) {
                    let j = choose|j: int|
                        0 <= j < i && reachable@.subrange(0, i as int)[j] && a@ == host_address(
                            prefix@,
                            (j + 1) as nat,
                        );
                    lemma_host_address_injective(prefix@, (i + 1) as nat, (j + 1) as nat);
                }
            }
            insert_sorted(&mut r, a);
        }
        proof {
            let pre = reachable@.subrange(0, i as int);
            let post = reachable@.subrange(0, i + 1 as int);
            assert forall|s: Seq<char>|
                views(r@).contains(s) <==> is_responder(prefix@, post, s) by {
                if is_responder(prefix@, pre, s) {
                    let j = choose|j: int|
                        0 <= j < pre.len() && pre[j] && s == host_address(prefix@, (j + 1) as nat);
                    assert(post[j] == pre[j]);
                }
                if is_responder(prefix@, post, s) {
                    let j = choose|j: int|
                        0 <= j < post.len() && post[j] && s == host_address(prefix@, (j + 1) as nat);
                    if j < i {
                        assert(pre[j] == post[j]);
                    } else {
                        assert(post[j] == reachable@[i as int]);
                    }
                }
                if reachable@[i as int] && s == host_address(prefix@, (i + 1) as nat) {
                    assert(post[i as int] == reachable@[i as int]);
                }
                if views(r@).contains(s) && !is_responder(prefix@, pre, s) {
                    assert(post[i as int] == reachable@[i as int]);
                }
            }
        }
        i = i + 1;
    }
    proof {
        assert(reachable@.subrange(0, i as int) =~= reachable@);
    }
    r
}

/// Two strictly sorted lists with the same elements are the same list.
pub proof fn lemma_sorted_unique(r1: Seq<Seq<char>>, r2: Seq<Seq<char>>)
    requires
        strictly_sorted(r1),
        strictly_sorted(r2),
        forall|s: Seq<char>| r1.contains(s) <==> r2.contains(s),
    ensures
        r1 == r2,
    decreases r1.len(),
{
    if r1.len() == 0 {
        if r2.len() > 0 {
            assert(r2.contains(r2[0]));
        }
        assert(r1 =~= r2);
    } else {
        assert(r1.contains(r1[0]));
        let k = choose|k: int| 0 <= k < r2.len() && r2[k] == r1[0];
        assert(r2.contains(r2[0]));
        let m = choose|m: int| 0 <= m < r1.len() && r1[m] == r2[0];
        if k > 0 {
            if m > 0 {
                lemma_lex_asymmetric(r1[0], r1[m]);
            } else {
                lemma_lex_irreflexive(r1[0]);
            }
        }
        let t1 = r1.drop_first();
        let t2 = r2.drop_first();
        assert forall|s: Seq<char>| t1.contains(s) <==> t2.contains(s) by {
            if t1.contains(s) {
                let a = choose|a: int| 0 <= a < t1.len() && t1[a] == s;
                assert(r1[a + 1] == s);
                assert(lex_lt(r1[0], s));
                lemma_lex_irreflexive(s);
                assert(r1.contains(s));
                let b = choose|b: int| 0 <= b < r2.len() && r2[b] == s;
                assert(b != 0);
                assert(t2[b - 1] == s);
            }
            if t2.contains(s) {
                let a = choose|a: int| 0 <= a < t2.len() && t2[a] == s;
                assert(r2[a + 1] == s);
                assert(lex_lt(r2[0], s));
                lemma_lex_irreflexive(s);
                assert(r2.contains(s));
                let b = choose|b: int| 0 <= b < r1.len() && r1[b] == s;
                assert(b != 0);
                assert(t1[b - 1] == s);
            }
        }
        lemma_sorted_unique(t1, t2);
        assert(r1 =~= seq![r1[0]] + t1);
        assert(r2 =~= seq![r2[0]] + t2);
    }
}

/// A sweep reports exactly the hosts whose probe succeeded, each exactly once,
/// whatever order the probes answered in.
pub proof fn lemma_scan_complete(prefix: Seq<char>, reachable: Seq<bool>, r: Seq<Seq<char>>)
    requires
        is_scan_result(prefix, reachable, r),
    ensures
        r.no_duplicates(),
        forall|i: int|
            0 <= i < reachable.len() && #[trigger] reachable[i] ==> r.contains(
                host_address(prefix, (i + 1) as nat),
            ),
        forall|k: int| 0 <= k < r.len() ==> is_responder(prefix, reachable, #[trigger] r[k]),
{
    assert forall|a: int, b: int| 0 <= a < r.len() && 0 <= b < r.len() && a != b implies r[a]
        != r[b] by {
        if a < b {
            lemma_lex_irreflexive(r[a]);
        } else {
            lemma_lex_irreflexive(r[b]);
        }
    }
    assert forall|i: int| 0 <= i < reachable.len() && #[trigger] reachable[i] implies r.contains(
        host_address(prefix, (i + 1) as nat),
    ) by {
        assert(is_responder(prefix, reachable, host_address(prefix, (i + 1) as nat)));
    }
    assert forall|k: int| 0 <= k < r.len() implies is_responder(prefix, reachable, #[trigger] r[k]) by {
        assert(r.contains(r[k]));
    }
}

/// Probe outcomes with the same responders give the same reported list, in the
/// same (string) order.
pub proof fn lemma_scan_deterministic(
    prefix: Seq<char>,
    reachable1: Seq<bool>,
    reachable2: Seq<bool>,
    r1: Seq<Seq<char>>,
    r2: Seq<Seq<char>>,
)
    requires
        is_scan_result(prefix, reachable1, r1),
        is_scan_result(prefix, reachable2, r2),
        forall|s: Seq<char>|
            is_responder(prefix, reachable1, s) <==> is_responder(prefix, reachable2, s),
    ensures
        r1 == r2,
{
    lemma_sorted_unique(r1, r2);
}

} // verus!
